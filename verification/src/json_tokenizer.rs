//! The position-tracking tokenizer: it turns the input text into a stream
//! of tokens, classifying whitespace runs, structural punctuation, quoted
//! strings with escapes, lenient numeric forms, and identifiers.
//!
//! The spec functions in this file state the token stream exactly: the
//! executable tokenizer is proved to return, step by step, precisely what
//! `spec_next_token` says.

use vstd::prelude::*;

use crate::chars::hex_text_value;
use crate::chars::is_digit;
use crate::chars::is_digit_char;
use crate::chars::is_ident_cont;
use crate::chars::is_ident_cont_char;
use crate::chars::is_ident_start;
use crate::chars::is_ident_start_char;
use crate::chars::is_num_cont;
use crate::chars::is_num_cont_char;
use crate::chars::is_num_start;
use crate::chars::is_num_start_char;
use crate::chars::is_unicode_scalar;
use crate::chars::is_ws;
use crate::chars::is_whitespace_char;
use crate::chars::char_from_u32;
use crate::chars::chars_to_string;
use crate::chars::parse_hex_u32;
use crate::chars::str_to_chars;
use crate::jsonfixer_error::JsonFixerError;
use crate::jsonfixer_error::SyntaxError;
use crate::jsonfixer_error::SyntaxErrorModel;
use crate::jsonfixer_error::err_model;

verus! {

/// A position in the input text: the line (1-based) and column (0-based
/// before the first character of a line is consumed) of the most recently
/// consumed character.
#[derive(Debug, PartialEq, Clone, Copy)]
pub struct Position {
    /// Line number (1-based)
    pub line: usize,
    /// Column number
    pub column: usize,
}

/// One token of the lenient JSON lexical grammar, carrying its position.
#[derive(Debug, PartialEq, Clone)]
pub enum Token {
    LeftBrace(Position),
    RightBrace(Position),
    LeftBracket(Position),
    RightBracket(Position),
    Colon(Position),
    Comma(Position),
    /// A quoted string's decoded content.
    String(String, Position),
    /// A number kept as its original text, so forms like `1e5` survive.
    Number(String, Position),
    Boolean(bool, Position),
    Null(Position),
    /// A maximal run of whitespace characters, kept verbatim.
    Whitespace(String, Position),
    /// An identifier that is not `true`, `false` or `null`.
    UnquotedString(String, Position),
}

/// The mathematical shape of a token: the same variants with text as a
/// character sequence and without the position.
pub enum Lexeme {
    LBrace,
    RBrace,
    LBracket,
    RBracket,
    Colon,
    Comma,
    StrTok(Seq<char>),
    NumTok(Seq<char>),
    BoolTok(bool),
    NullTok,
    WsTok(Seq<char>),
    IdentTok(Seq<char>),
}

pub open spec fn token_lexeme(t: Token) -> Lexeme {
    match t {
        Token::LeftBrace(_) => Lexeme::LBrace,
        Token::RightBrace(_) => Lexeme::RBrace,
        Token::LeftBracket(_) => Lexeme::LBracket,
        Token::RightBracket(_) => Lexeme::RBracket,
        Token::Colon(_) => Lexeme::Colon,
        Token::Comma(_) => Lexeme::Comma,
        Token::String(s, _) => Lexeme::StrTok(s@),
        Token::Number(s, _) => Lexeme::NumTok(s@),
        Token::Boolean(b, _) => Lexeme::BoolTok(b),
        Token::Null(_) => Lexeme::NullTok,
        Token::Whitespace(s, _) => Lexeme::WsTok(s@),
        Token::UnquotedString(s, _) => Lexeme::IdentTok(s@),
    }
}

pub open spec fn token_position(t: Token) -> Position {
    match t {
        Token::LeftBrace(p) => p,
        Token::RightBrace(p) => p,
        Token::LeftBracket(p) => p,
        Token::RightBracket(p) => p,
        Token::Colon(p) => p,
        Token::Comma(p) => p,
        Token::String(_, p) => p,
        Token::Number(_, p) => p,
        Token::Boolean(_, p) => p,
        Token::Null(p) => p,
        Token::Whitespace(_, p) => p,
        Token::UnquotedString(_, p) => p,
    }
}

/// The descriptive text `Token::get` returns for each token.
pub open spec fn lexeme_text(lx: Lexeme) -> Seq<char> {
    match lx {
        Lexeme::LBrace => seq!['\'', '{', '\''],
        Lexeme::RBrace => seq!['\'', '}', '\''],
        Lexeme::LBracket => seq!['\'', '[', '\''],
        Lexeme::RBracket => seq!['\'', ']', '\''],
        Lexeme::Colon => seq!['\'', ':', '\''],
        Lexeme::Comma => seq!['\'', ',', '\''],
        Lexeme::StrTok(s) => seq!['S', 't', 'r', 'i', 'n', 'g', '('] + s + seq![')'],
        Lexeme::NumTok(s) => seq!['N', 'u', 'm', 'b', 'e', 'r', '('] + s + seq![')'],
        Lexeme::BoolTok(b) => if b {
            seq!['B', 'o', 'o', 'l', 'e', 'a', 'n', '(', 't', 'r', 'u', 'e', ')']
        } else {
            seq!['B', 'o', 'o', 'l', 'e', 'a', 'n', '(', 'f', 'a', 'l', 's', 'e', ')']
        },
        Lexeme::NullTok => seq!['n', 'u', 'l', 'l'],
        Lexeme::WsTok(s) => s,
        Lexeme::IdentTok(s) => s,
    }
}

/// An increment that stays put at the integer's ceiling; positions serve
/// diagnostics only, so they saturate rather than demand a bound on the
/// input length.
pub open spec fn sat_inc(x: usize) -> usize {
    if x == usize::MAX {
        x
    } else {
        (x + 1) as usize
    }
}

/// How consuming one character advances a position: the column advances,
/// and a newline starts the next line at column 1.
pub open spec fn adv_pos(p: Position, c: char) -> Position {
    if c == '\n' {
        Position { line: sat_inc(p.line), column: 1 }
    } else {
        Position { line: p.line, column: sat_inc(p.column) }
    }
}

pub open spec fn adv_pos_over(p: Position, s: Seq<char>) -> Position
    decreases s.len(),
{
    if s.len() == 0 {
        p
    } else {
        adv_pos_over(adv_pos(p, s[0]), s.skip(1))
    }
}

/// The position before anything is consumed.
pub open spec fn start_position() -> Position {
    Position { line: 1, column: 0 }
}

/// The tokenizer's cursor: the index of the next character to consume and
/// the position of the last consumed one.
pub struct LexState {
    pub i: int,
    pub pos: Position,
}

/// The outcome of asking for one more token.
pub enum LexOut {
    /// End of input.
    End,
    /// A token, its position, and the cursor after it.
    Tok(Lexeme, Position, LexState),
    /// A syntax error and the cursor where scanning stopped.
    Fail(SyntaxErrorModel, LexState),
}

/// Where a greedy whitespace scan starting at `i` stops.
pub open spec fn ws_run_end(s: Seq<char>, i: int) -> int
    decreases s.len() - i,
{
    if i < s.len() && is_ws(s[i]) {
        ws_run_end(s, i + 1)
    } else {
        i
    }
}

/// Where a greedy number-character scan starting at `i` stops.
pub open spec fn num_run_end(s: Seq<char>, i: int) -> int
    decreases s.len() - i,
{
    if i < s.len() && is_num_cont(s[i]) {
        num_run_end(s, i + 1)
    } else {
        i
    }
}

/// Where a greedy identifier-character scan starting at `i` stops.
pub open spec fn ident_run_end(s: Seq<char>, i: int) -> int
    decreases s.len() - i,
{
    if i < s.len() && is_ident_cont(s[i]) {
        ident_run_end(s, i + 1)
    } else {
        i
    }
}

/// The string scanner, one consumed character per step, starting just
/// after the opening quote.  Escapes decode `"`-, `\`-, `/`-, control- and
/// `u`-forms; a unicode escape takes the next four characters outright and
/// drops silently when they do not name a Unicode scalar; any other
/// escaped character stands for itself.  Reaching the end of the input
/// before the closing quote fails with unmatched quotes.
pub open spec fn scan_string(
    s: Seq<char>,
    i: int,
    quote: char,
    start: Position,
    p: Position,
    acc: Seq<char>,
) -> LexOut
    decreases s.len() - i,
{
    if i >= s.len() {
        LexOut::Fail(SyntaxErrorModel::UnmatchedQuotes(start), LexState { i: s.len() as int, pos: p })
    } else {
        let c = s[i];
        let p1 = adv_pos(p, c);
        if c == quote {
            LexOut::Tok(Lexeme::StrTok(acc), start, LexState { i: i + 1, pos: p1 })
        } else if c == '\\' {
            if i + 1 >= s.len() {
                LexOut::Fail(
                    SyntaxErrorModel::UnmatchedQuotes(start),
                    LexState { i: s.len() as int, pos: p1 },
                )
            } else {
                let e = s[i + 1];
                let p2 = adv_pos(p1, e);
                if e == '"' || e == '\\' || e == '/' {
                    scan_string(s, i + 2, quote, start, p2, acc.push(e))
                } else if e == 'b' {
                    scan_string(s, i + 2, quote, start, p2, acc.push('\u{8}'))
                } else if e == 'f' {
                    scan_string(s, i + 2, quote, start, p2, acc.push('\u{C}'))
                } else if e == 'n' {
                    scan_string(s, i + 2, quote, start, p2, acc.push('\n'))
                } else if e == 'r' {
                    scan_string(s, i + 2, quote, start, p2, acc.push('\r'))
                } else if e == 't' {
                    scan_string(s, i + 2, quote, start, p2, acc.push('\t'))
                } else if e == 'u' {
                    let j = if i + 6 <= s.len() {
                        i + 6
                    } else {
                        s.len() as int
                    };
                    let hex = s.subrange(i + 2, j);
                    let p3 = adv_pos_over(p2, hex);
                    match hex_text_value(hex) {
                        Some(code) => if is_unicode_scalar(code as u32) {
                            scan_string(s, j, quote, start, p3, acc.push((code as u32) as char))
                        } else {
                            scan_string(s, j, quote, start, p3, acc)
                        },
                        None => scan_string(s, j, quote, start, p3, acc),
                    }
                } else {
                    scan_string(s, i + 2, quote, start, p2, acc.push(e))
                }
            }
        } else {
            scan_string(s, i + 1, quote, start, p1, acc.push(c))
        }
    }
}

/// The number scanner, starting at the first character `s[i]` (a sign,
/// dot, or digit).  A leading plus needs a digit after it and is dropped;
/// a leading dot needs a digit after it and gains a leading zero; the body
/// is then taken greedily from the digit, dot, sign and exponent-letter
/// characters.  A second dot after a leading dot fails; a trailing dot is
/// removed.  The token's position is the position of its last character.
pub open spec fn lex_number(s: Seq<char>, i: int, p1: Position) -> LexOut {
    let c = s[i];
    let start = p1;
    if (c == '+' || c == '.') && (i + 1 >= s.len() || !is_digit(s[i + 1])) {
        LexOut::Fail(
            SyntaxErrorModel::InvalidNumber(seq![c], start),
            LexState { i: i + 1, pos: p1 },
        )
    } else {
        let prefix: Seq<char> = if c == '+' {
            Seq::empty()
        } else if c == '.' {
            seq!['0', '.']
        } else {
            seq![c]
        };
        let j = num_run_end(s, i + 1);
        let body = s.subrange(i + 1, j);
        let raw0 = prefix + body;
        let pj = adv_pos_over(p1, body);
        let multi_dots = c == '.' && exists|t: int| i + 1 <= t < j && s[t] == '.';
        if multi_dots {
            LexOut::Fail(SyntaxErrorModel::InvalidNumber(raw0, start), LexState { i: j, pos: pj })
        } else {
            let raw = if raw0.last() == '.' {
                raw0.drop_last()
            } else {
                raw0
            };
            LexOut::Tok(Lexeme::NumTok(raw), pj, LexState { i: j, pos: pj })
        }
    }
}

/// The identifier scanner: the maximal alphanumeric-or-underscore run
/// starting at `s[i]`; `true`, `false` and `null` become their own tokens.
pub open spec fn lex_ident(s: Seq<char>, i: int, p1: Position) -> LexOut {
    let j = ident_run_end(s, i + 1);
    let text = s.subrange(i, j);
    let pj = adv_pos_over(p1, s.subrange(i + 1, j));
    let st = LexState { i: j, pos: pj };
    if text == seq!['t', 'r', 'u', 'e'] {
        LexOut::Tok(Lexeme::BoolTok(true), p1, st)
    } else if text == seq!['f', 'a', 'l', 's', 'e'] {
        LexOut::Tok(Lexeme::BoolTok(false), p1, st)
    } else if text == seq!['n', 'u', 'l', 'l'] {
        LexOut::Tok(Lexeme::NullTok, p1, st)
    } else {
        LexOut::Tok(Lexeme::IdentTok(text), p1, st)
    }
}

/// One step of the tokenizer: what the next token of `s` is when the
/// cursor stands at `i` with the last consumed character at `p`.
pub open spec fn spec_next_token(s: Seq<char>, i: int, p: Position) -> LexOut {
    if i >= s.len() {
        LexOut::End
    } else {
        let c = s[i];
        let p1 = adv_pos(p, c);
        if is_ws(c) {
            let j = ws_run_end(s, i + 1);
            LexOut::Tok(
                Lexeme::WsTok(s.subrange(i, j)),
                p1,
                LexState { i: j, pos: adv_pos_over(p1, s.subrange(i + 1, j)) },
            )
        } else if c == '{' {
            LexOut::Tok(Lexeme::LBrace, p1, LexState { i: i + 1, pos: p1 })
        } else if c == '}' {
            LexOut::Tok(Lexeme::RBrace, p1, LexState { i: i + 1, pos: p1 })
        } else if c == '[' {
            LexOut::Tok(Lexeme::LBracket, p1, LexState { i: i + 1, pos: p1 })
        } else if c == ']' {
            LexOut::Tok(Lexeme::RBracket, p1, LexState { i: i + 1, pos: p1 })
        } else if c == ':' {
            LexOut::Tok(Lexeme::Colon, p1, LexState { i: i + 1, pos: p1 })
        } else if c == ',' {
            LexOut::Tok(Lexeme::Comma, p1, LexState { i: i + 1, pos: p1 })
        } else if c == '\'' || c == '"' {
            scan_string(s, i + 1, c, p1, p1, Seq::empty())
        } else if is_num_start(c) {
            lex_number(s, i, p1)
        } else if is_ident_start(c) {
            lex_ident(s, i, p1)
        } else {
            LexOut::Fail(
                SyntaxErrorModel::UnexpectedCharacter(c, p1),
                LexState { i: i + 1, pos: p1 },
            )
        }
    }
}


proof fn lemma_adv_pos_over_push(p: Position, s: Seq<char>, c: char)
    ensures
        adv_pos_over(p, s.push(c)) == adv_pos(adv_pos_over(p, s), c),
    decreases s.len(),
{
    if s.len() == 0 {
        let t = s.push(c);
        assert(t.skip(1) =~= Seq::<char>::empty());
        assert(t[0] == c);
        assert(adv_pos_over(p, t) == adv_pos_over(adv_pos(p, c), t.skip(1)));
        assert(adv_pos_over(adv_pos(p, c), t.skip(1)) == adv_pos(p, c));
        assert(adv_pos_over(p, s) == p);
    } else {
        assert(s.push(c)[0] == s[0]);
        assert(s.push(c).skip(1) =~= s.skip(1).push(c));
        lemma_adv_pos_over_push(adv_pos(p, s[0]), s.skip(1), c);
    }
}

/// The tokenizer: a cursor over the input characters with the line and
/// column of the last consumed character.
pub struct JsonTokenizer {
    input: Vec<char>,
    i: usize,
    line: usize,
    column: usize,
}

impl JsonTokenizer {
    /// The input text as a character sequence.
    pub closed spec fn chars(&self) -> Seq<char> {
        self.input@
    }

    /// The cursor: next index to consume, and the current position.
    pub closed spec fn cursor(&self) -> LexState {
        LexState { i: self.i as int, pos: Position { line: self.line, column: self.column } }
    }

    pub open spec fn wf(&self) -> bool {
        0 <= self.cursor().i <= self.chars().len()
    }

    /// A fresh tokenizer at the start of the input.
    pub fn new(input: &str) -> (r: Self)
        ensures
            r.chars() == input@,
            r.cursor() == (LexState { i: 0, pos: start_position() }),
            r.wf(),
    {
        JsonTokenizer { input: str_to_chars(input), i: 0, line: 1, column: 0 }
    }

    /// The position of the most recently consumed character.
    pub fn current_position(&self) -> (r: Position)
        ensures
            r == self.cursor().pos,
    {
        Position { line: self.line, column: self.column }
    }

    fn advance(&mut self) -> (r: Option<char>)
        requires
            old(self).wf(),
        ensures
            final(self).chars() == old(self).chars(),
            final(self).wf(),
            old(self).cursor().i < old(self).chars().len() ==> {
                &&& r == Some(old(self).chars()[old(self).cursor().i])
                &&& final(self).cursor().i == old(self).cursor().i + 1
                &&& final(self).cursor().pos == adv_pos(
                    old(self).cursor().pos,
                    old(self).chars()[old(self).cursor().i],
                )
            },
            old(self).cursor().i >= old(self).chars().len() ==> r is None && *final(self)
                == *old(self),
    {
        if self.i < self.input.len() {
            let c = self.input[self.i];
            self.i = self.i + 1;
            if c == '\n' {
                if self.line < usize::MAX {
                    self.line = self.line + 1;
                }
                self.column = 1;
            } else {
                if self.column < usize::MAX {
                    self.column = self.column + 1;
                }
            }
            Some(c)
        } else {
            None
        }
    }

    fn peek(&self) -> (r: Option<char>)
        requires
            self.wf(),
        ensures
            r == (if self.cursor().i < self.chars().len() {
                Some(self.chars()[self.cursor().i])
            } else {
                None::<char>
            }),
    {
        if self.i < self.input.len() {
            Some(self.input[self.i])
        } else {
            None
        }
    }

    fn ws_ahead(&self) -> (r: bool)
        requires
            self.wf(),
        ensures
            r == (self.cursor().i < self.chars().len() && is_ws(self.chars()[self.cursor().i])),
    {
        match self.peek() {
            Some(c) => is_whitespace_char(c),
            None => false,
        }
    }

    fn num_ahead(&self) -> (r: bool)
        requires
            self.wf(),
        ensures
            r == (self.cursor().i < self.chars().len() && is_num_cont(
                self.chars()[self.cursor().i],
            )),
    {
        match self.peek() {
            Some(c) => is_num_cont_char(c),
            None => false,
        }
    }

    fn ident_ahead(&self) -> (r: bool)
        requires
            self.wf(),
        ensures
            r == (self.cursor().i < self.chars().len() && is_ident_cont(
                self.chars()[self.cursor().i],
            )),
    {
        match self.peek() {
            Some(c) => is_ident_cont_char(c),
            None => false,
        }
    }

    /// Returns the next token from the input stream, or `None` at the end
    /// of the input, or the syntax error on which scanning stopped; the
    /// outcome and the new cursor are exactly those of `spec_next_token`.
    pub fn next_token(&mut self) -> (r: Result<Option<Token>, JsonFixerError>)
        requires
            old(self).wf(),
        ensures
            final(self).wf(),
            final(self).chars() == old(self).chars(),
            lex_step(old(self).chars(), old(self).cursor(), r, final(self).cursor()),
    {
        let ghost s = old(self).chars();
        let ghost st0 = old(self).cursor();
        match self.advance() {
            None => Ok(None),
            Some(ch) => {
                let p1 = self.current_position();
                if is_whitespace_char(ch) {
                    match self.tokenize_whitespaces(ch) {
                        Ok(t) => Ok(Some(t)),
                        Err(e) => Err(e),
                    }
                } else if ch == '{' {
                    Ok(Some(Token::LeftBrace(p1)))
                } else if ch == '}' {
                    Ok(Some(Token::RightBrace(p1)))
                } else if ch == '[' {
                    Ok(Some(Token::LeftBracket(p1)))
                } else if ch == ']' {
                    Ok(Some(Token::RightBracket(p1)))
                } else if ch == ':' {
                    Ok(Some(Token::Colon(p1)))
                } else if ch == ',' {
                    Ok(Some(Token::Comma(p1)))
                } else if ch == '\'' || ch == '"' {
                    match self.tokenize_string(ch) {
                        Ok(t) => Ok(Some(t)),
                        Err(e) => Err(e),
                    }
                } else if is_num_start_char(ch) {
                    match self.tokenize_number(ch) {
                        Ok(t) => Ok(Some(t)),
                        Err(e) => Err(e),
                    }
                } else if is_ident_start_char(ch) {
                    match self.tokenize_identifier(ch) {
                        Ok(t) => Ok(Some(t)),
                        Err(e) => Err(e),
                    }
                } else {
                    Err(JsonFixerError::Syntax(SyntaxError::UnexpectedCharacter(ch, p1)))
                }
            },
        }
    }

    #[verifier::loop_isolation(false)]
    fn tokenize_whitespaces(&mut self, first_space: char) -> (r: Result<Token, JsonFixerError>)
        requires
            old(self).wf(),
            old(self).cursor().i >= 1,
            first_space == old(self).chars()[old(self).cursor().i - 1],
            is_ws(first_space),
        ensures
            final(self).chars() == old(self).chars(),
            final(self).wf(),
            ({
                let s = old(self).chars();
                let i1 = old(self).cursor().i;
                let p1 = old(self).cursor().pos;
                let j = ws_run_end(s, i1);
                r matches Ok(t) && token_lexeme(t) == Lexeme::WsTok(s.subrange(i1 - 1, j))
                    && token_position(t) == p1 && final(self).cursor() == (LexState {
                    i: j,
                    pos: adv_pos_over(p1, s.subrange(i1, j)),
                })
            }),
    {
        let start_pos = self.current_position();
        let ghost s = old(self).chars();
        let ghost i1 = old(self).cursor().i;
        let ghost p1 = old(self).cursor().pos;
        let mut whitespaces: Vec<char> = Vec::new();
        whitespaces.push(first_space);
        proof {
            assert(s.subrange(i1 - 1, i1) =~= seq![first_space]);
            assert(whitespaces@ =~= s.subrange(i1 - 1, i1));
            assert(s.subrange(i1, i1) =~= Seq::<char>::empty());
        }
        while self.ws_ahead()
            invariant
                self.wf(),
                self.chars() == s,
                i1 <= self.cursor().i <= s.len(),
                ws_run_end(s, self.cursor().i) == ws_run_end(s, i1),
                whitespaces@ == s.subrange(i1 - 1, self.cursor().i),
                self.cursor().pos == adv_pos_over(p1, s.subrange(i1, self.cursor().i)),
            decreases s.len() - self.cursor().i,
        {
            let ghost ic = self.cursor().i;
            let c = self.advance().unwrap();
            whitespaces.push(c);
            proof {
                assert(s.subrange(i1 - 1, ic + 1) =~= s.subrange(i1 - 1, ic).push(s[ic]));
                assert(s.subrange(i1, ic + 1) =~= s.subrange(i1, ic).push(s[ic]));
                lemma_adv_pos_over_push(p1, s.subrange(i1, ic), s[ic]);
            }
        }
        Ok(Token::Whitespace(chars_to_string(&whitespaces), start_pos))
    }

    #[verifier::loop_isolation(false)]
    fn tokenize_identifier(&mut self, first_char: char) -> (r: Result<Token, JsonFixerError>)
        requires
            old(self).wf(),
            old(self).cursor().i >= 1,
            first_char == old(self).chars()[old(self).cursor().i - 1],
        ensures
            final(self).chars() == old(self).chars(),
            final(self).wf(),
            ({
                let s = old(self).chars();
                let i0 = old(self).cursor().i - 1;
                let p1 = old(self).cursor().pos;
                match lex_ident(s, i0, p1) {
                    LexOut::Tok(lx, tp, stn) => r matches Ok(t) && token_lexeme(t) == lx
                        && token_position(t) == tp && final(self).cursor() == stn,
                    _ => false,
                }
            }),
    {
        let start_pos = self.current_position();
        let ghost s = old(self).chars();
        let ghost i1 = old(self).cursor().i;
        let ghost p1 = old(self).cursor().pos;
        let mut ident: Vec<char> = Vec::new();
        ident.push(first_char);
        proof {
            assert(ident@ =~= s.subrange(i1 - 1, i1));
            assert(s.subrange(i1, i1) =~= Seq::<char>::empty());
        }
        while self.ident_ahead()
            invariant
                self.wf(),
                self.chars() == s,
                i1 <= self.cursor().i <= s.len(),
                ident_run_end(s, self.cursor().i) == ident_run_end(s, i1),
                ident@ == s.subrange(i1 - 1, self.cursor().i),
                self.cursor().pos == adv_pos_over(p1, s.subrange(i1, self.cursor().i)),
            decreases s.len() - self.cursor().i,
        {
            let ghost ic = self.cursor().i;
            let c = self.advance().unwrap();
            ident.push(c);
            proof {
                assert(s.subrange(i1 - 1, ic + 1) =~= s.subrange(i1 - 1, ic).push(s[ic]));
                assert(s.subrange(i1, ic + 1) =~= s.subrange(i1, ic).push(s[ic]));
                lemma_adv_pos_over_push(p1, s.subrange(i1, ic), s[ic]);
            }
        }
        let is_true = ident.len() == 4 && ident[0] == 't' && ident[1] == 'r'
            && ident[2] == 'u' && ident[3] == 'e';
        let is_false = ident.len() == 5 && ident[0] == 'f' && ident[1] == 'a'
            && ident[2] == 'l' && ident[3] == 's' && ident[4] == 'e';
        let is_null = ident.len() == 4 && ident[0] == 'n' && ident[1] == 'u'
            && ident[2] == 'l' && ident[3] == 'l';
        proof {
            assert(is_true == (ident@ =~= seq!['t', 'r', 'u', 'e']));
            assert(is_false == (ident@ =~= seq!['f', 'a', 'l', 's', 'e']));
            assert(is_null == (ident@ =~= seq!['n', 'u', 'l', 'l']));
        }
        if is_true {
            Ok(Token::Boolean(true, start_pos))
        } else if is_false {
            Ok(Token::Boolean(false, start_pos))
        } else if is_null {
            Ok(Token::Null(start_pos))
        } else {
            Ok(Token::UnquotedString(chars_to_string(&ident), start_pos))
        }
    }

    #[verifier::loop_isolation(false)]
    fn tokenize_number(&mut self, first_char: char) -> (r: Result<Token, JsonFixerError>)
        requires
            old(self).wf(),
            old(self).cursor().i >= 1,
            first_char == old(self).chars()[old(self).cursor().i - 1],
        ensures
            final(self).chars() == old(self).chars(),
            final(self).wf(),
            ({
                let s = old(self).chars();
                let i0 = old(self).cursor().i - 1;
                let p1 = old(self).cursor().pos;
                match lex_number(s, i0, p1) {
                    LexOut::Tok(lx, tp, stn) => r matches Ok(t) && token_lexeme(t) == lx
                        && token_position(t) == tp && final(self).cursor() == stn,
                    LexOut::Fail(e, stn) => r matches Err(JsonFixerError::Syntax(se))
                        && err_model(se) == e && final(self).cursor() == stn,
                    LexOut::End => false,
                }
            }),
    {
        let start_pos = self.current_position();
        let ghost s = old(self).chars();
        let ghost i1 = old(self).cursor().i;
        let ghost p1 = old(self).cursor().pos;
        let mut number: Vec<char> = Vec::new();
        number.push(first_char);
        if first_char == '+' || first_char == '.' {
            // with no digit after the sign or dot, the text is invalid
            let digit_next = match self.peek() {
                Some(nc) => is_digit_char(nc),
                None => false,
            };
            if !digit_next {
                proof {
                    assert(number@ =~= seq![first_char]);
                }
                return Err(JsonFixerError::Syntax(SyntaxError::InvalidNumber(
                    chars_to_string(&number),
                    start_pos,
                )));
            }
            if first_char == '+' {
                number.clear();
            }
            if first_char == '.' {
                number.clear();
                number.push('0');
                number.push('.');
            }
        }
        let ghost prefix = number@;
        proof {
            if first_char == '+' {
                assert(prefix =~= Seq::<char>::empty());
            } else if first_char == '.' {
                assert(prefix =~= seq!['0', '.']);
            } else {
                assert(prefix =~= seq![first_char]);
            }
        }
        let mut multi_dots = false;
        while self.num_ahead()
            invariant
                self.wf(),
                self.chars() == s,
                i1 <= self.cursor().i <= s.len(),
                num_run_end(s, self.cursor().i) == num_run_end(s, i1),
                number@ == prefix + s.subrange(i1, self.cursor().i),
                multi_dots == (first_char == '.' && exists|t: int|
                    i1 <= t < self.cursor().i && s[t] == '.'),
                self.cursor().pos == adv_pos_over(p1, s.subrange(i1, self.cursor().i)),
            decreases s.len() - self.cursor().i,
        {
            let ghost ic = self.cursor().i;
            let c = self.advance().unwrap();
            if first_char == '.' && c == '.' {
                multi_dots = true;
            }
            number.push(c);
            proof {
                assert(s.subrange(i1, ic + 1) =~= s.subrange(i1, ic).push(s[ic]));
                assert(number@ =~= prefix + s.subrange(i1, ic + 1));
                lemma_adv_pos_over_push(p1, s.subrange(i1, ic), s[ic]);
            }
        }
        proof {
            assert(num_run_end(s, self.cursor().i) == self.cursor().i);
        }
        if multi_dots {
            return Err(JsonFixerError::Syntax(SyntaxError::InvalidNumber(
                chars_to_string(&number),
                start_pos,
            )));
        }
        if number[number.len() - 1] == '.' {
            number.pop();
            proof {
                assert(number@ =~= (prefix + s.subrange(i1, self.cursor().i)).drop_last());
            }
        }
        Ok(Token::Number(chars_to_string(&number), self.current_position()))
    }

    #[verifier::loop_isolation(false)]
    fn tokenize_string(&mut self, quote_char: char) -> (r: Result<Token, JsonFixerError>)
        requires
            old(self).wf(),
        ensures
            final(self).chars() == old(self).chars(),
            final(self).wf(),
            ({
                let s = old(self).chars();
                let st0 = old(self).cursor();
                match scan_string(s, st0.i, quote_char, st0.pos, st0.pos, Seq::empty()) {
                    LexOut::Tok(lx, tp, stn) => r matches Ok(t) && token_lexeme(t) == lx
                        && token_position(t) == tp && final(self).cursor() == stn,
                    LexOut::Fail(e, stn) => r matches Err(JsonFixerError::Syntax(se))
                        && err_model(se) == e && final(self).cursor() == stn,
                    LexOut::End => false,
                }
            }),
    {
        let start_pos = self.current_position();
        let ghost s = old(self).chars();
        let ghost st0 = old(self).cursor();
        let mut result: Vec<char> = Vec::new();
        loop
            invariant
                self.wf(),
                self.chars() == s,
                st0.i <= self.cursor().i <= s.len(),
                scan_string(s, st0.i, quote_char, start_pos, st0.pos, Seq::empty()) == scan_string(
                    s,
                    self.cursor().i,
                    quote_char,
                    start_pos,
                    self.cursor().pos,
                    result@,
                ),
            decreases s.len() - self.cursor().i,
        {
            let ghost ic = self.cursor().i;
            let ghost pc = self.cursor().pos;
            match self.advance() {
                None => {
                    return Err(JsonFixerError::Syntax(SyntaxError::UnmatchedQuotes(start_pos)));
                },
                Some(ch) => {
                    if ch == quote_char {
                        return Ok(Token::String(chars_to_string(&result), start_pos));
                    } else if ch == '\\' {
                        match self.advance() {
                            None => {
                                // the input ended right after the backslash;
                                // the loop's next read fails with unmatched
                                // quotes
                            },
                            Some(next_ch) => {
                                if next_ch == '"' || next_ch == '\\' || next_ch == '/' {
                                    result.push(next_ch);
                                } else if next_ch == 'b' {
                                    result.push('\u{8}');
                                } else if next_ch == 'f' {
                                    result.push('\u{C}');
                                } else if next_ch == 'n' {
                                    result.push('\n');
                                } else if next_ch == 'r' {
                                    result.push('\r');
                                } else if next_ch == 't' {
                                    result.push('\t');
                                } else if next_ch == 'u' {
                                    let ghost iu = self.cursor().i;
                                    let ghost pu = self.cursor().pos;
                                    let mut hex: Vec<char> = Vec::new();
                                    proof {
                                        assert(hex@ =~= s.subrange(iu, iu));
                                        assert(s.subrange(iu, iu) =~= Seq::<char>::empty());
                                    }
                                    let mut k: usize = 0;
                                    while k < 4
                                        invariant
                                            0 <= k <= 4,
                                            self.wf(),
                                            self.chars() == s,
                                            iu <= self.cursor().i <= s.len(),
                                            self.cursor().i == (if iu + k <= s.len() {
                                                iu + k
                                            } else {
                                                s.len() as int
                                            }),
                                            hex@ == s.subrange(iu, self.cursor().i),
                                            self.cursor().pos == adv_pos_over(
                                                pu,
                                                s.subrange(iu, self.cursor().i),
                                            ),
                                        decreases 4 - k,
                                    {
                                        let ghost ik = self.cursor().i;
                                        match self.advance() {
                                            Some(h) => {
                                                hex.push(h);
                                                proof {
                                                    assert(s.subrange(iu, ik + 1) =~= s.subrange(
                                                        iu,
                                                        ik,
                                                    ).push(s[ik]));
                                                    lemma_adv_pos_over_push(
                                                        pu,
                                                        s.subrange(iu, ik),
                                                        s[ik],
                                                    );
                                                }
                                            },
                                            None => {},
                                        }
                                        k += 1;
                                    }
                                    match parse_hex_u32(hex.as_slice()) {
                                        Some(code) => {
                                            match char_from_u32(code) {
                                                Some(chr) => {
                                                    result.push(chr);
                                                },
                                                None => {},
                                            }
                                        },
                                        None => {},
                                    }
                                } else {
                                    result.push(next_ch);
                                }
                            },
                        }
                    } else {
                        result.push(ch);
                    }
                },
            }
        }
    }
}

/// How one `next_token` call relates the old cursor, the returned value
/// and the new cursor: exactly as `spec_next_token` prescribes.
pub open spec fn lex_step(
    s: Seq<char>,
    st: LexState,
    r: Result<Option<Token>, JsonFixerError>,
    st2: LexState,
) -> bool {
    match spec_next_token(s, st.i, st.pos) {
        LexOut::End => r matches Ok(None) && st2 == st,
        LexOut::Tok(lx, tp, stn) => r matches Ok(Some(t)) && token_lexeme(t) == lx
            && token_position(t) == tp && st2 == stn,
        LexOut::Fail(e, stn) => r matches Err(JsonFixerError::Syntax(se)) && err_model(se) == e
            && st2 == stn,
    }
}


impl Token {
    /// The descriptive text of the token, as shown in error messages.
    pub fn get(&self) -> (r: String)
        ensures
            r@ == lexeme_text(token_lexeme(*self)),
    {
        let mut out: Vec<char> = Vec::new();
        match self {
            Token::LeftBrace(_) => {
                out.push('\'');
                out.push('{');
                out.push('\'');
                proof {
                    assert(out@ =~= lexeme_text(token_lexeme(*self)));
                }
            },
            Token::RightBrace(_) => {
                out.push('\'');
                out.push('}');
                out.push('\'');
                proof {
                    assert(out@ =~= lexeme_text(token_lexeme(*self)));
                }
            },
            Token::LeftBracket(_) => {
                out.push('\'');
                out.push('[');
                out.push('\'');
                proof {
                    assert(out@ =~= lexeme_text(token_lexeme(*self)));
                }
            },
            Token::RightBracket(_) => {
                out.push('\'');
                out.push(']');
                out.push('\'');
                proof {
                    assert(out@ =~= lexeme_text(token_lexeme(*self)));
                }
            },
            Token::Colon(_) => {
                out.push('\'');
                out.push(':');
                out.push('\'');
                proof {
                    assert(out@ =~= lexeme_text(token_lexeme(*self)));
                }
            },
            Token::Comma(_) => {
                out.push('\'');
                out.push(',');
                out.push('\'');
                proof {
                    assert(out@ =~= lexeme_text(token_lexeme(*self)));
                }
            },
            Token::String(s, _) => {
                out.push('S');
                out.push('t');
                out.push('r');
                out.push('i');
                out.push('n');
                out.push('g');
                out.push('(');
                let mut body = str_to_chars(s.as_str());
                out.append(&mut body);
                out.push(')');
                proof {
                    assert(out@ =~= lexeme_text(token_lexeme(*self)));
                }
            },
            Token::Number(s, _) => {
                out.push('N');
                out.push('u');
                out.push('m');
                out.push('b');
                out.push('e');
                out.push('r');
                out.push('(');
                let mut body = str_to_chars(s.as_str());
                out.append(&mut body);
                out.push(')');
                proof {
                    assert(out@ =~= lexeme_text(token_lexeme(*self)));
                }
            },
            Token::Boolean(b, _) => {
                out.push('B');
                out.push('o');
                out.push('o');
                out.push('l');
                out.push('e');
                out.push('a');
                out.push('n');
                out.push('(');
                if *b {
                    out.push('t');
                    out.push('r');
                    out.push('u');
                    out.push('e');
                } else {
                    out.push('f');
                    out.push('a');
                    out.push('l');
                    out.push('s');
                    out.push('e');
                }
                out.push(')');
                proof {
                    assert(out@ =~= lexeme_text(token_lexeme(*self)));
                }
            },
            Token::Null(_) => {
                out.push('n');
                out.push('u');
                out.push('l');
                out.push('l');
                proof {
                    assert(out@ =~= lexeme_text(token_lexeme(*self)));
                }
            },
            Token::Whitespace(s, _) => {
                let mut body = str_to_chars(s.as_str());
                out.append(&mut body);
                proof {
                    assert(out@ =~= lexeme_text(token_lexeme(*self)));
                }
            },
            Token::UnquotedString(s, _) => {
                let mut body = str_to_chars(s.as_str());
                out.append(&mut body);
                proof {
                    assert(out@ =~= lexeme_text(token_lexeme(*self)));
                }
            },
        }
        chars_to_string(&out)
    }

    /// The position the token carries.
    pub fn pos(&self) -> (r: &Position)
        ensures
            *r == token_position(*self),
    {
        match self {
            Token::LeftBrace(pos) => pos,
            Token::RightBrace(pos) => pos,
            Token::LeftBracket(pos) => pos,
            Token::RightBracket(pos) => pos,
            Token::Colon(pos) => pos,
            Token::Comma(pos) => pos,
            Token::String(_, pos) => pos,
            Token::Number(_, pos) => pos,
            Token::Boolean(_, pos) => pos,
            Token::Null(pos) => pos,
            Token::Whitespace(_, pos) => pos,
            Token::UnquotedString(_, pos) => pos,
        }
    }
}


pub proof fn lemma_ws_run_end_bounds(s: Seq<char>, i: int)
    requires
        i <= s.len(),
    ensures
        i <= ws_run_end(s, i) <= s.len(),
    decreases s.len() - i,
{
    if i < s.len() && is_ws(s[i]) {
        lemma_ws_run_end_bounds(s, i + 1);
    }
}

pub proof fn lemma_num_run_end_bounds(s: Seq<char>, i: int)
    requires
        i <= s.len(),
    ensures
        i <= num_run_end(s, i) <= s.len(),
    decreases s.len() - i,
{
    if i < s.len() && is_num_cont(s[i]) {
        lemma_num_run_end_bounds(s, i + 1);
    }
}

pub proof fn lemma_ident_run_end_bounds(s: Seq<char>, i: int)
    requires
        i <= s.len(),
    ensures
        i <= ident_run_end(s, i) <= s.len(),
    decreases s.len() - i,
{
    if i < s.len() && is_ident_cont(s[i]) {
        lemma_ident_run_end_bounds(s, i + 1);
    }
}

pub proof fn lemma_scan_string_bounds(
    s: Seq<char>,
    i: int,
    quote: char,
    start: Position,
    p: Position,
    acc: Seq<char>,
)
    requires
        i <= s.len(),
    ensures
        match scan_string(s, i, quote, start, p, acc) {
            LexOut::End => false,
            LexOut::Tok(lx, tp, l2) => i < l2.i <= s.len(),
            LexOut::Fail(e, l2) => i <= l2.i <= s.len(),
        },
    decreases s.len() - i,
{
    if i >= s.len() {
    } else {
        let c = s[i];
        let p1 = adv_pos(p, c);
        if c == quote {
        } else if c == '\\' {
            if i + 1 >= s.len() {
            } else {
                let e = s[i + 1];
                let p2 = adv_pos(p1, e);
                if e == 'u' {
                    let j = if i + 6 <= s.len() {
                        i + 6
                    } else {
                        s.len() as int
                    };
                    let hex = s.subrange(i + 2, j);
                    let p3 = adv_pos_over(p2, hex);
                    match hex_text_value(hex) {
                        Some(code) => {
                            if is_unicode_scalar(code as u32) {
                                lemma_scan_string_bounds(
                                    s,
                                    j,
                                    quote,
                                    start,
                                    p3,
                                    acc.push((code as u32) as char),
                                );
                            } else {
                                lemma_scan_string_bounds(s, j, quote, start, p3, acc);
                            }
                        },
                        None => {
                            lemma_scan_string_bounds(s, j, quote, start, p3, acc);
                        },
                    }
                } else if e == '"' || e == '\\' || e == '/' {
                    lemma_scan_string_bounds(s, i + 2, quote, start, p2, acc.push(e));
                } else if e == 'b' {
                    lemma_scan_string_bounds(s, i + 2, quote, start, p2, acc.push('\u{8}'));
                } else if e == 'f' {
                    lemma_scan_string_bounds(s, i + 2, quote, start, p2, acc.push('\u{C}'));
                } else if e == 'n' {
                    lemma_scan_string_bounds(s, i + 2, quote, start, p2, acc.push('\n'));
                } else if e == 'r' {
                    lemma_scan_string_bounds(s, i + 2, quote, start, p2, acc.push('\r'));
                } else if e == 't' {
                    lemma_scan_string_bounds(s, i + 2, quote, start, p2, acc.push('\t'));
                } else {
                    lemma_scan_string_bounds(s, i + 2, quote, start, p2, acc.push(e));
                }
            }
        } else {
            lemma_scan_string_bounds(s, i + 1, quote, start, p1, acc.push(c));
        }
    }
}

/// Fetching a token always makes progress: a token or an error moves the
/// cursor strictly forward, and the end is reported only at the end.
pub proof fn lemma_next_token_progress(s: Seq<char>, i: int, p: Position)
    ensures
        match spec_next_token(s, i, p) {
            LexOut::End => i >= s.len(),
            LexOut::Tok(lx, tp, l2) => i < l2.i <= s.len(),
            LexOut::Fail(e, l2) => i < l2.i <= s.len(),
        },
{
    if i >= s.len() {
    } else {
        let c = s[i];
        let p1 = adv_pos(p, c);
        if is_ws(c) {
            lemma_ws_run_end_bounds(s, i + 1);
        } else if c == '{' || c == '}' || c == '[' || c == ']' || c == ':' || c == ',' {
        } else if c == '\'' || c == '"' {
            lemma_scan_string_bounds(s, i + 1, c, p1, p1, Seq::empty());
        } else if is_num_start(c) {
            lemma_num_run_end_bounds(s, i + 1);
        } else if is_ident_start(c) {
            lemma_ident_run_end_bounds(s, i + 1);
        } else {
        }
    }
}

} // verus!
