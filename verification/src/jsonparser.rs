//! The fault-tolerant parser and the document model it builds: a recursive
//! tree of values whose composite nodes are ordered entry lists, each entry
//! carrying the whitespace that surrounded it in the source.
//!
//! The spec functions state the parse exactly: the executable parser is
//! proved to build precisely the document that `sp_parse_value` describes,
//! or to stop with the first fatal error it describes.

use vstd::prelude::*;
use vstd::string::StringExecFns;

use crate::chars::chars_to_string;
use crate::chars::is_valid_number;
use crate::chars::str_to_chars;
use crate::chars::valid_number_text;
use crate::json_tokenizer::JsonTokenizer;
use crate::json_tokenizer::LexOut;
use crate::json_tokenizer::LexState;
use crate::json_tokenizer::Lexeme;
use crate::json_tokenizer::Position;
use crate::json_tokenizer::Token;
use crate::json_tokenizer::lemma_next_token_progress;
use crate::json_tokenizer::lexeme_text;
use crate::json_tokenizer::spec_next_token;
use crate::json_tokenizer::start_position;
use crate::json_tokenizer::token_lexeme;
use crate::json_tokenizer::token_position;
use crate::jsonfixer_config::JsonFixerConfig;
use crate::jsonformatter::Formatter;
use crate::jsonformatter::JsonFormatter;
use crate::jsonfixer_error::JsonFixerError;
use crate::jsonfixer_error::SyntaxError;
use crate::jsonfixer_error::SyntaxErrorModel;
use crate::jsonfixer_error::err_model;

verus! {

/// One JSON value of the document model.  `Space` is formatter-internal:
/// it re-emits a preserved whitespace run as a pseudo-value.
#[derive(Debug, PartialEq)]
pub enum JsonValue {
    Null,
    Boolean(bool),
    /// A number kept as its original text.
    Number(String),
    String(String),
    Array(Vec<JsonEntryValue>),
    Object(Vec<JsonEntryValue>),
    Space(String),
}

/// One slot of an array or object: an optional key, an optional value (a
/// missing value marks a defect slot that only carries whitespace), and
/// the four whitespace spans around them.
#[derive(Debug, PartialEq)]
pub struct JsonEntryValue {
    pub space_bf_key: Option<String>,
    pub key: Option<String>,
    pub space_af_key: Option<String>,
    pub space_bf_val: Option<String>,
    pub value: Option<JsonValue>,
    pub space_af_val: Option<String>,
}

/// The mathematical shape of a document value, over character sequences.
#[verifier::ext_equal]
pub enum ValueModel {
    Null,
    Boolean(bool),
    Number(Seq<char>),
    String(Seq<char>),
    Array(Seq<EntryModel>),
    Object(Seq<EntryModel>),
    Space(Seq<char>),
}

/// The mathematical shape of one entry.
#[verifier::ext_equal]
pub struct EntryModel {
    pub space_bf_key: Option<Seq<char>>,
    pub key: Option<Seq<char>>,
    pub space_af_key: Option<Seq<char>>,
    pub space_bf_val: Option<Seq<char>>,
    pub value: Option<ValueModel>,
    pub space_af_val: Option<Seq<char>>,
}

pub open spec fn opt_str_view(o: Option<String>) -> Option<Seq<char>> {
    match o {
        Some(s) => Some(s@),
        None => None,
    }
}

pub open spec fn view_value(v: JsonValue) -> ValueModel
    decreases v,
{
    match v {
        JsonValue::Null => ValueModel::Null,
        JsonValue::Boolean(b) => ValueModel::Boolean(b),
        JsonValue::Number(s) => ValueModel::Number(s@),
        JsonValue::String(s) => ValueModel::String(s@),
        JsonValue::Array(es) => ValueModel::Array(view_entries(es@)),
        JsonValue::Object(es) => ValueModel::Object(view_entries(es@)),
        JsonValue::Space(s) => ValueModel::Space(s@),
    }
}

pub open spec fn view_entries(es: Seq<JsonEntryValue>) -> Seq<EntryModel>
    decreases es,
{
    if es.len() == 0 {
        Seq::empty()
    } else {
        view_entries(es.drop_last()).push(view_entry(es.last()))
    }
}

pub open spec fn view_entry(e: JsonEntryValue) -> EntryModel
    decreases e,
{
    EntryModel {
        space_bf_key: opt_str_view(e.space_bf_key),
        key: opt_str_view(e.key),
        space_af_key: opt_str_view(e.space_af_key),
        space_bf_val: opt_str_view(e.space_bf_val),
        value: match e.value {
            Some(v) => Some(view_value(v)),
            None => None,
        },
        space_af_val: opt_str_view(e.space_af_val),
    }
}

pub proof fn lemma_view_entries_index(es: Seq<JsonEntryValue>)
    ensures
        view_entries(es).len() == es.len(),
        forall|i: int| 0 <= i < es.len() ==> view_entries(es)[i] == view_entry(es[i]),
    decreases es.len(),
{
    if es.len() > 0 {
        lemma_view_entries_index(es.drop_last());
    }
}

fn clone_opt_string(o: &Option<String>) -> (r: Option<String>)
    ensures
        opt_str_view(r) == opt_str_view(*o),
{
    match o {
        Some(s) => Some(s.clone()),
        None => None,
    }
}

fn clone_value(v: &JsonValue) -> (r: JsonValue)
    ensures
        view_value(r) == view_value(*v),
    decreases *v,
{
    match v {
        JsonValue::Null => JsonValue::Null,
        JsonValue::Boolean(b) => JsonValue::Boolean(*b),
        JsonValue::Number(s) => JsonValue::Number(s.clone()),
        JsonValue::String(s) => JsonValue::String(s.clone()),
        JsonValue::Space(s) => JsonValue::Space(s.clone()),
        JsonValue::Array(es) => JsonValue::Array(clone_entries(es)),
        JsonValue::Object(es) => JsonValue::Object(clone_entries(es)),
    }
}

#[verifier::loop_isolation(false)]
fn clone_entries(es: &Vec<JsonEntryValue>) -> (r: Vec<JsonEntryValue>)
    ensures
        view_entries(r@) == view_entries(es@),
    decreases es@,
{
    let mut out: Vec<JsonEntryValue> = Vec::new();
    proof {
        lemma_view_entries_index(es@);
        assert(view_entries(out@) =~= view_entries(es@.take(0)));
    }
    let mut i: usize = 0;
    while i < es.len()
        invariant
            0 <= i <= es@.len(),
            view_entries(out@) == view_entries(es@.take(i as int)),
            out@.len() == i,
        decreases es@.len() - i,
    {
        let ghost prev = out@;
        let e = clone_entry(&es[i]);
        out.push(e);
        proof {
            assert(out@.drop_last() =~= prev);
            assert(es@.take(i + 1 as int).drop_last() =~= es@.take(i as int));
            assert(es@.take(i + 1 as int).last() == es@[i as int]);
            assert(view_entries(out@) == view_entries(es@.take(i + 1 as int)));
        }
        i += 1;
    }
    proof {
        assert(es@.take(es@.len() as int) =~= es@);
    }
    out
}

fn clone_entry(e: &JsonEntryValue) -> (r: JsonEntryValue)
    ensures
        view_entry(r) == view_entry(*e),
    decreases *e,
{
    JsonEntryValue {
        space_bf_key: clone_opt_string(&e.space_bf_key),
        key: clone_opt_string(&e.key),
        space_af_key: clone_opt_string(&e.space_af_key),
        space_bf_val: clone_opt_string(&e.space_bf_val),
        value: match &e.value {
            Some(v) => Some(clone_value(v)),
            None => None,
        },
        space_af_val: clone_opt_string(&e.space_af_val),
    }
}

impl Clone for JsonValue {
    /// A deep copy with the same document-model view.
    fn clone(&self) -> (r: Self)
        ensures
            view_value(r) == view_value(*self),
    {
        clone_value(self)
    }
}

impl Clone for JsonEntryValue {
    /// A deep copy with the same entry-model view.
    fn clone(&self) -> (r: Self)
        ensures
            view_entry(r) == view_entry(*self),
    {
        clone_entry(self)
    }
}

impl JsonEntryValue {
    fn new() -> (r: Self)
        ensures
            view_entry(r) == (EntryModel {
                space_bf_key: None,
                key: None,
                space_af_key: None,
                space_bf_val: None,
                value: None,
                space_af_val: None,
            }),
    {
        JsonEntryValue {
            space_bf_key: None,
            key: None,
            space_af_key: None,
            space_bf_val: None,
            value: None,
            space_af_val: None,
        }
    }

    /// The whitespace before the key, or empty text when none was seen.
    pub fn get_sp_bf_key(&self) -> (r: String)
        ensures
            r@ == (match view_entry(*self).space_bf_key {
                Some(s) => s,
                None => Seq::<char>::empty(),
            }),
    {
        match &self.space_bf_key {
            Some(s) => s.clone(),
            None => String::new(),
        }
    }

    /// The key text, or empty text when the entry has no key.
    pub fn get_key(&self) -> (r: String)
        ensures
            r@ == (match view_entry(*self).key {
                Some(s) => s,
                None => Seq::<char>::empty(),
            }),
    {
        match &self.key {
            Some(s) => s.clone(),
            None => String::new(),
        }
    }

    /// The whitespace after the key, or empty text when none was seen.
    pub fn get_sp_af_key(&self) -> (r: String)
        ensures
            r@ == (match view_entry(*self).space_af_key {
                Some(s) => s,
                None => Seq::<char>::empty(),
            }),
    {
        match &self.space_af_key {
            Some(s) => s.clone(),
            None => String::new(),
        }
    }

    /// The entry's value; the entry must carry one.
    pub fn get_value(&self) -> (r: JsonValue)
        requires
            self.value is Some,
        ensures
            Some(view_value(r)) == view_entry(*self).value,
    {
        match &self.value {
            Some(v) => clone_value(v),
            None => unreached(),
        }
    }

    /// The whitespace before the value, or empty text when none was seen.
    pub fn get_sp_bf_val(&self) -> (r: String)
        ensures
            r@ == (match view_entry(*self).space_bf_val {
                Some(s) => s,
                None => Seq::<char>::empty(),
            }),
    {
        match &self.space_bf_val {
            Some(s) => s.clone(),
            None => String::new(),
        }
    }

    /// The whitespace after the value, or empty text when none was seen.
    pub fn get_sp_af_val(&self) -> (r: String)
        ensures
            r@ == (match view_entry(*self).space_af_val {
                Some(s) => s,
                None => Seq::<char>::empty(),
            }),
    {
        match &self.space_af_val {
            Some(s) => s.clone(),
            None => String::new(),
        }
    }
}


/// The parser's cursor: the current lookahead token, when the last fetch
/// produced one, and the tokenizer cursor behind it.
pub struct PState {
    pub cur: Option<(Lexeme, Position)>,
    pub lex: LexState,
}

/// Fetching the next lookahead token.
pub open spec fn sp_advance(s: Seq<char>, st: PState) -> Result<PState, SyntaxErrorModel> {
    match spec_next_token(s, st.lex.i, st.lex.pos) {
        LexOut::End => Ok(PState { cur: None, lex: st.lex }),
        LexOut::Tok(lx, p, l2) => Ok(PState { cur: Some((lx, p)), lex: l2 }),
        LexOut::Fail(e, l2) => Err(e),
    }
}

/// The parser's state after construction: the first token is fetched; a
/// failure of that first fetch leaves no lookahead and the tokenizer
/// cursor where scanning stopped (the error itself is kept beside the
/// state and reported by the run).
pub open spec fn sp_init(s: Seq<char>) -> PState {
    let l0 = LexState { i: 0, pos: start_position() };
    match spec_next_token(s, l0.i, l0.pos) {
        LexOut::End => PState { cur: None, lex: l0 },
        LexOut::Tok(lx, p, l2) => PState { cur: Some((lx, p)), lex: l2 },
        LexOut::Fail(e, l2) => PState { cur: None, lex: l2 },
    }
}

/// The characters of the input not yet consumed, clamped at zero.
pub open spec fn sp_rem(s: Seq<char>, st: PState) -> int {
    if st.lex.i <= s.len() {
        s.len() - st.lex.i
    } else {
        0
    }
}

/// Whether a lookahead token is held: fetching at the end of the input
/// clears it, which bounds the parser's steps.
pub open spec fn sp_cur_rank(st: PState) -> int {
    if st.cur is Some {
        1
    } else {
        0
    }
}

/// A guard on a continuation state that makes the entry loops' recursion
/// well-founded: a state that somehow moved the cursor backwards would be
/// replaced by an exhausted one.  A parsed value never moves the cursor
/// backwards, so the guard is inert; the executable parser proves as much.
pub open spec fn sp_keep(s: Seq<char>, st0: PState, st1: PState) -> PState {
    if sp_rem(s, st1) <= sp_rem(s, st0) && (st1.cur is Some ==> st0.cur is Some) {
        st1
    } else {
        PState { cur: None, lex: st0.lex }
    }
}

/// As `sp_keep`, for the state after a composite value, which strictly
/// shrinks the remaining input or exhausts the lookahead.
pub open spec fn sp_keep_strict(s: Seq<char>, st0: PState, st1: PState) -> PState {
    if sp_rem(s, st1) < sp_rem(s, st0) || (st1.cur is None && sp_rem(s, st1) <= sp_rem(s, st0)) {
        st1
    } else {
        PState { cur: None, lex: st0.lex }
    }
}

/// The string content with every double quote re-escaped.
pub open spec fn replace_quotes(s: Seq<char>) -> Seq<char>
    decreases s.len(),
{
    if s.len() == 0 {
        Seq::empty()
    } else if s[0] == '"' {
        seq!['\\', '"'] + replace_quotes(s.skip(1))
    } else {
        seq![s[0]] + replace_quotes(s.skip(1))
    }
}

pub open spec fn entry_model(
    sbk: Option<Seq<char>>,
    key: Option<Seq<char>>,
    sak: Option<Seq<char>>,
    sbv: Option<Seq<char>>,
    value: Option<ValueModel>,
    sav: Option<Seq<char>>,
) -> EntryModel {
    EntryModel {
        space_bf_key: sbk,
        key: key,
        space_af_key: sak,
        space_bf_val: sbv,
        value: value,
        space_af_val: sav,
    }
}

/// The message text for a token in a value or key position that the
/// grammar forbids.
pub open spec fn key_err_text(lx: Lexeme) -> Seq<char> {
    "\nExpected a 'Key' after '{' but found "@ + lexeme_text(lx)
}

pub open spec fn colon_err_text(lx: Lexeme) -> Seq<char> {
    "\nExpected ':' after a 'key' but found "@ + lexeme_text(lx)
}

pub open spec fn eof_err_text(lx: Lexeme) -> Seq<char> {
    "\nExpected  EOF but found "@ + lexeme_text(lx)
}

/// One value: dispatch on the lookahead.  A scalar leaves the lookahead
/// in place; objects and arrays consume through their closing bracket; a
/// bare identifier is rejected as a value, and numeric text is held to
/// the float grammar.
pub open spec fn sp_parse_value(s: Seq<char>, st: PState) -> Result<
    (ValueModel, PState),
    SyntaxErrorModel,
>
    decreases sp_rem(s, st), sp_cur_rank(st), 3int,
{
    match st.cur {
        None => Err(SyntaxErrorModel::UnexpectedEndOfInput(st.lex.pos)),
        Some((lx, p)) => match lx {
            Lexeme::LBrace => sp_parse_object(s, st),
            Lexeme::LBracket => sp_parse_array(s, st),
            Lexeme::StrTok(t) => Ok((ValueModel::String(replace_quotes(t)), st)),
            Lexeme::NumTok(n) => if valid_number_text(n) {
                Ok((ValueModel::Number(n), st))
            } else {
                Err(SyntaxErrorModel::InvalidNumber(n, p))
            },
            Lexeme::BoolTok(b) => Ok((ValueModel::Boolean(b), st)),
            Lexeme::NullTok => Ok((ValueModel::Null, st)),
            Lexeme::IdentTok(t) => Err(SyntaxErrorModel::UnexpectedToken(t, p)),
            _ => Err(SyntaxErrorModel::UnexpectedToken(lexeme_text(lx), p)),
        },
    }
}

/// An object: consume the opening brace, then the entry loop.
pub open spec fn sp_parse_object(s: Seq<char>, st: PState) -> Result<
    (ValueModel, PState),
    SyntaxErrorModel,
>
    decreases sp_rem(s, st), sp_cur_rank(st), 2int,
    when st.cur is Some
    via sp_parse_object_dec
{
    match sp_advance(s, st) {
        Err(e) => Err(e),
        Ok(st1) => sp_obj_entries(s, st1, Seq::empty()),
    }
}

/// The object entry loop, at the start of one entry.
pub open spec fn sp_obj_entries(s: Seq<char>, st: PState, acc: Seq<EntryModel>) -> Result<
    (ValueModel, PState),
    SyntaxErrorModel,
>
    decreases sp_rem(s, st), sp_cur_rank(st), 9int,
    via sp_obj_entries_dec
{
    match st.cur {
        None => match sp_advance(s, st) {
            Err(e) => Err(e),
            Ok(st2) => Ok((ValueModel::Object(acc), st2)),
        },
        Some((lx, p)) => match lx {
            Lexeme::RBrace => match sp_advance(s, st) {
                Err(e) => Err(e),
                Ok(st2) => Ok((ValueModel::Object(acc), st2)),
            },
            Lexeme::Comma => match sp_advance(s, st) {
                Err(e) => Err(e),
                Ok(st1) => sp_obj_entries(s, st1, acc),
            },
            Lexeme::WsTok(w) => match sp_advance(s, st) {
                Err(e) => Err(e),
                Ok(st1) => sp_obj_key(s, st1, acc, Some(w)),
            },
            _ => sp_obj_key(s, st, acc, None),
        },
    }
}

/// The key position of one object entry.
pub open spec fn sp_obj_key(
    s: Seq<char>,
    st: PState,
    acc: Seq<EntryModel>,
    sbk: Option<Seq<char>>,
) -> Result<(ValueModel, PState), SyntaxErrorModel>
    decreases sp_rem(s, st), sp_cur_rank(st), 8int,
    via sp_obj_key_dec
{
    match st.cur {
        None => match sp_advance(s, st) {
            Err(e) => Err(e),
            Ok(st2) => Ok(
                (ValueModel::Object(acc.push(entry_model(sbk, None, None, None, None, None))), st2),
            ),
        },
        Some((lx, p)) => match lx {
            Lexeme::RBrace => match sp_advance(s, st) {
                Err(e) => Err(e),
                Ok(st2) => Ok(
                    (
                        ValueModel::Object(acc.push(entry_model(sbk, None, None, None, None, None))),
                        st2,
                    ),
                ),
            },
            Lexeme::Comma => match sp_advance(s, st) {
                Err(e) => Err(e),
                Ok(st1) => sp_obj_entries(
                    s,
                    st1,
                    acc.push(entry_model(sbk, None, None, None, None, None)),
                ),
            },
            Lexeme::StrTok(k) => match sp_advance(s, st) {
                Err(e) => Err(e),
                Ok(st1) => sp_obj_colon(s, st1, acc, sbk, k),
            },
            Lexeme::IdentTok(k) => match sp_advance(s, st) {
                Err(e) => Err(e),
                Ok(st1) => sp_obj_colon(s, st1, acc, sbk, k),
            },
            _ => Err(SyntaxErrorModel::UnexpectedToken(key_err_text(lx), p)),
        },
    }
}

/// Optional whitespace between a key and its colon.
pub open spec fn sp_obj_colon(
    s: Seq<char>,
    st: PState,
    acc: Seq<EntryModel>,
    sbk: Option<Seq<char>>,
    k: Seq<char>,
) -> Result<(ValueModel, PState), SyntaxErrorModel>
    decreases sp_rem(s, st), sp_cur_rank(st), 7int,
    via sp_obj_colon_dec
{
    match st.cur {
        Some((Lexeme::WsTok(w), p)) => match sp_advance(s, st) {
            Err(e) => Err(e),
            Ok(st1) => sp_obj_colon2(s, st1, acc, sbk, k, Some(w)),
        },
        _ => sp_obj_colon2(s, st, acc, sbk, k, None),
    }
}

/// The colon after a key; its absence is fatal.
pub open spec fn sp_obj_colon2(
    s: Seq<char>,
    st: PState,
    acc: Seq<EntryModel>,
    sbk: Option<Seq<char>>,
    k: Seq<char>,
    sak: Option<Seq<char>>,
) -> Result<(ValueModel, PState), SyntaxErrorModel>
    decreases sp_rem(s, st), sp_cur_rank(st), 6int,
    via sp_obj_colon2_dec
{
    match st.cur {
        Some((Lexeme::Colon, _)) => match sp_advance(s, st) {
            Err(e) => Err(e),
            Ok(st1) => sp_obj_value(s, st1, acc, sbk, k, sak),
        },
        Some((lx, p)) => Err(SyntaxErrorModel::UnexpectedToken(colon_err_text(lx), p)),
        None => Err(SyntaxErrorModel::UnexpectedEndOfInput(st.lex.pos)),
    }
}

/// Optional whitespace between the colon and the value.
pub open spec fn sp_obj_value(
    s: Seq<char>,
    st: PState,
    acc: Seq<EntryModel>,
    sbk: Option<Seq<char>>,
    k: Seq<char>,
    sak: Option<Seq<char>>,
) -> Result<(ValueModel, PState), SyntaxErrorModel>
    decreases sp_rem(s, st), sp_cur_rank(st), 5int,
    via sp_obj_value_dec
{
    match st.cur {
        Some((Lexeme::WsTok(w), p)) => match sp_advance(s, st) {
            Err(e) => Err(e),
            Ok(st1) => sp_obj_value2(s, st1, acc, sbk, k, sak, Some(w)),
        },
        _ => sp_obj_value2(s, st, acc, sbk, k, sak, None),
    }
}

/// The value of one object entry, optional whitespace after it, and the
/// unconditional lookahead consumption that follows an entry.
pub open spec fn sp_obj_value2(
    s: Seq<char>,
    st: PState,
    acc: Seq<EntryModel>,
    sbk: Option<Seq<char>>,
    k: Seq<char>,
    sak: Option<Seq<char>>,
    sbv: Option<Seq<char>>,
) -> Result<(ValueModel, PState), SyntaxErrorModel>
    decreases sp_rem(s, st), sp_cur_rank(st), 4int,
    via sp_obj_value2_dec
{
    match st.cur {
        None => Err(SyntaxErrorModel::UnexpectedEndOfInput(st.lex.pos)),
        Some(_) => match sp_parse_value(s, st) {
            Err(e) => Err(e),
            Ok((v, st1r)) => {
                let st1 = sp_keep(s, st, st1r);
                match st1.cur {
                    Some((Lexeme::WsTok(w), p)) => match sp_advance(s, st1) {
                        Err(e) => Err(e),
                        Ok(st2) => sp_obj_done(
                            s,
                            st2,
                            acc.push(entry_model(sbk, Some(k), sak, sbv, Some(v), Some(w))),
                        ),
                    },
                    _ => sp_obj_done(
                        s,
                        st1,
                        acc.push(entry_model(sbk, Some(k), sak, sbv, Some(v), None)),
                    ),
                }
            },
        },
    }
}

/// The advance at the end of one object entry, then back to the loop.
pub open spec fn sp_obj_done(s: Seq<char>, st: PState, acc: Seq<EntryModel>) -> Result<
    (ValueModel, PState),
    SyntaxErrorModel,
>
    decreases sp_rem(s, st), sp_cur_rank(st), 3int,
    via sp_obj_done_dec
{
    if st.cur is None {
        match sp_advance(s, st) {
            Err(e) => Err(e),
            Ok(st2) => Ok((ValueModel::Object(acc), st2)),
        }
    } else {
        match sp_advance(s, st) {
            Err(e) => Err(e),
            Ok(st1) => sp_obj_entries(s, st1, acc),
        }
    }
}

/// An array: consume the opening bracket, then the slot loop.
pub open spec fn sp_parse_array(s: Seq<char>, st: PState) -> Result<
    (ValueModel, PState),
    SyntaxErrorModel,
>
    decreases sp_rem(s, st), sp_cur_rank(st), 2int,
    when st.cur is Some
    via sp_parse_array_dec
{
    match sp_advance(s, st) {
        Err(e) => Err(e),
        Ok(st1) => sp_arr_entries(s, st1, Seq::empty()),
    }
}

/// The array slot loop, at the start of one slot.
pub open spec fn sp_arr_entries(s: Seq<char>, st: PState, acc: Seq<EntryModel>) -> Result<
    (ValueModel, PState),
    SyntaxErrorModel,
>
    decreases sp_rem(s, st), sp_cur_rank(st), 9int,
    via sp_arr_entries_dec
{
    match st.cur {
        None => match sp_advance(s, st) {
            Err(e) => Err(e),
            Ok(st2) => Ok((ValueModel::Array(acc), st2)),
        },
        Some((lx, p)) => match lx {
            Lexeme::RBracket => match sp_advance(s, st) {
                Err(e) => Err(e),
                Ok(st2) => Ok((ValueModel::Array(acc), st2)),
            },
            Lexeme::Comma => match sp_advance(s, st) {
                Err(e) => Err(e),
                Ok(st1) => sp_arr_entries(s, st1, acc),
            },
            Lexeme::WsTok(w) => match sp_advance(s, st) {
                Err(e) => Err(e),
                Ok(st1) => sp_arr_slot(s, st1, acc, Some(w)),
            },
            _ => sp_arr_slot(s, st, acc, None),
        },
    }
}

/// The value position of one array slot.
pub open spec fn sp_arr_slot(
    s: Seq<char>,
    st: PState,
    acc: Seq<EntryModel>,
    sbv: Option<Seq<char>>,
) -> Result<(ValueModel, PState), SyntaxErrorModel>
    decreases sp_rem(s, st), sp_cur_rank(st), 8int,
    via sp_arr_slot_dec
{
    match st.cur {
        None => Err(SyntaxErrorModel::UnexpectedEndOfInput(st.lex.pos)),
        Some((Lexeme::RBracket, _)) => match sp_advance(s, st) {
            Err(e) => Err(e),
            Ok(st2) => Ok(
                (ValueModel::Array(acc.push(entry_model(None, None, None, sbv, None, None))), st2),
            ),
        },
        Some((Lexeme::Comma, _)) => match sp_advance(s, st) {
            Err(e) => Err(e),
            Ok(st1) => sp_arr_entries(
                s,
                st1,
                acc.push(entry_model(None, None, None, sbv, None, None)),
            ),
        },
        _ => match sp_parse_value(s, st) {
            Err(e) => Err(e),
            Ok((v, st1r)) => if !(v is Array || v is Object) {
                match sp_advance(s, sp_keep(s, st, st1r)) {
                    Err(e) => Err(e),
                    Ok(st2) => sp_arr_after(s, st2, acc, sbv, v),
                }
            } else {
                sp_arr_after(s, sp_keep_strict(s, st, st1r), acc, sbv, v)
            },
        },
    }
}

/// Optional whitespace after an array value, then back to the loop.
pub open spec fn sp_arr_after(
    s: Seq<char>,
    st: PState,
    acc: Seq<EntryModel>,
    sbv: Option<Seq<char>>,
    v: ValueModel,
) -> Result<(ValueModel, PState), SyntaxErrorModel>
    decreases sp_rem(s, st), sp_cur_rank(st), 11int,
    via sp_arr_after_dec
{
    match st.cur {
        Some((Lexeme::WsTok(w), p)) => match sp_advance(s, st) {
            Err(e) => Err(e),
            Ok(st1) => sp_arr_done(
                s,
                st1,
                acc.push(entry_model(None, None, None, sbv, Some(v), Some(w))),
            ),
        },
        _ => sp_arr_done(s, st, acc.push(entry_model(None, None, None, sbv, Some(v), None))),
    }
}

/// Back to the slot loop after one array slot.
pub open spec fn sp_arr_done(s: Seq<char>, st: PState, acc: Seq<EntryModel>) -> Result<
    (ValueModel, PState),
    SyntaxErrorModel,
>
    decreases sp_rem(s, st), sp_cur_rank(st), 10int,
    via sp_arr_done_dec
{
    if st.cur is None {
        match sp_advance(s, st) {
            Err(e) => Err(e),
            Ok(st2) => Ok((ValueModel::Array(acc), st2)),
        }
    } else {
        sp_arr_entries(s, st, acc)
    }
}

/// After the top-level value, only whitespace may remain; its text is
/// gathered so preserve mode can reproduce it.
pub open spec fn sp_trailing(s: Seq<char>, st: PState) -> Result<Seq<char>, SyntaxErrorModel>
    decreases sp_rem(s, st), sp_cur_rank(st),
    via sp_trailing_dec
{
    match st.cur {
        None => Ok(Seq::empty()),
        Some((Lexeme::WsTok(w), p)) => match sp_advance(s, st) {
            Err(e) => Err(e),
            Ok(st1) => match sp_trailing(s, st1) {
                Err(e) => Err(e),
                Ok(rest) => Ok(w + rest),
            },
        },
        Some((lx, p)) => Err(SyntaxErrorModel::UnexpectedToken(eof_err_text(lx), p)),
    }
}

/// The whole fixing run: a failure of the first fetch is the run's
/// error; otherwise skip one leading whitespace token, parse exactly one
/// value, consume a scalar's own token, demand only whitespace to the
/// end of the input, and render the document — with the trailing
/// whitespace appended when the layout is preserved.
pub open spec fn spec_fix(s: Seq<char>, cfg: JsonFixerConfig) -> Result<
    Seq<char>,
    SyntaxErrorModel,
> {
    match spec_next_token(s, 0, start_position()) {
        LexOut::Fail(e, l) => Err(e),
        _ => sp_parse_run(s, sp_init(s), cfg),
    }
}

/// Fetching never moves the cursor backwards: a token strictly shrinks
/// the remaining input, and the end leaves the cursor in place with the
/// lookahead cleared.
pub proof fn sp_advance_progress(s: Seq<char>, st: PState)
    ensures
        match sp_advance(s, st) {
            Ok(st1) => {
                &&& sp_rem(s, st1) <= sp_rem(s, st)
                &&& (st1.cur is Some ==> st1.lex.i > st.lex.i && st1.lex.i <= s.len() && sp_rem(
                    s,
                    st1,
                ) < sp_rem(s, st))
                &&& (st1.cur is None ==> st1.lex == st.lex && st.lex.i >= s.len())
            },
            Err(e) => true,
        },
{
    lemma_next_token_progress(s, st.lex.i, st.lex.pos);
}

proof fn sp_advance_progress_all(s: Seq<char>)
    ensures
        forall|stx: PState|
            match #[trigger] sp_advance(s, stx) {
                Ok(st1) => {
                    &&& sp_rem(s, st1) <= sp_rem(s, stx)
                    &&& (st1.cur is Some ==> st1.lex.i > stx.lex.i && st1.lex.i <= s.len()
                        && sp_rem(s, st1) < sp_rem(s, stx))
                    &&& (st1.cur is None ==> st1.lex == stx.lex && stx.lex.i >= s.len())
                },
                Err(e) => true,
            },
{
    assert forall|stx: PState|
        match #[trigger] sp_advance(s, stx) {
            Ok(st1) => {
                &&& sp_rem(s, st1) <= sp_rem(s, stx)
                &&& (st1.cur is Some ==> st1.lex.i > stx.lex.i && st1.lex.i <= s.len() && sp_rem(
                    s,
                    st1,
                ) < sp_rem(s, stx))
                &&& (st1.cur is None ==> st1.lex == stx.lex && stx.lex.i >= s.len())
            },
            Err(e) => true,
        } by {
        sp_advance_progress(s, stx);
    }
}

#[via_fn]
proof fn sp_parse_object_dec(s: Seq<char>, st: PState) {
    sp_advance_progress_all(s);
}

#[via_fn]
proof fn sp_obj_entries_dec(s: Seq<char>, st: PState, acc: Seq<EntryModel>) {
    sp_advance_progress_all(s);
}

#[via_fn]
proof fn sp_obj_key_dec(s: Seq<char>, st: PState, acc: Seq<EntryModel>, sbk: Option<Seq<char>>) {
    sp_advance_progress_all(s);
}

#[via_fn]
proof fn sp_obj_colon_dec(
    s: Seq<char>,
    st: PState,
    acc: Seq<EntryModel>,
    sbk: Option<Seq<char>>,
    k: Seq<char>,
) {
    sp_advance_progress_all(s);
}

#[via_fn]
proof fn sp_obj_colon2_dec(
    s: Seq<char>,
    st: PState,
    acc: Seq<EntryModel>,
    sbk: Option<Seq<char>>,
    k: Seq<char>,
    sak: Option<Seq<char>>,
) {
    sp_advance_progress_all(s);
}

#[via_fn]
proof fn sp_obj_value_dec(
    s: Seq<char>,
    st: PState,
    acc: Seq<EntryModel>,
    sbk: Option<Seq<char>>,
    k: Seq<char>,
    sak: Option<Seq<char>>,
) {
    sp_advance_progress_all(s);
}

#[via_fn]
proof fn sp_obj_value2_dec(
    s: Seq<char>,
    st: PState,
    acc: Seq<EntryModel>,
    sbk: Option<Seq<char>>,
    k: Seq<char>,
    sak: Option<Seq<char>>,
    sbv: Option<Seq<char>>,
) {
    sp_advance_progress_all(s);
}

#[via_fn]
proof fn sp_obj_done_dec(s: Seq<char>, st: PState, acc: Seq<EntryModel>) {
    sp_advance_progress_all(s);
}

#[via_fn]
proof fn sp_parse_array_dec(s: Seq<char>, st: PState) {
    sp_advance_progress_all(s);
}

#[via_fn]
proof fn sp_arr_entries_dec(s: Seq<char>, st: PState, acc: Seq<EntryModel>) {
    sp_advance_progress_all(s);
}

#[via_fn]
proof fn sp_arr_slot_dec(s: Seq<char>, st: PState, acc: Seq<EntryModel>, sbv: Option<Seq<char>>) {
    sp_advance_progress_all(s);
}

#[via_fn]
proof fn sp_arr_after_dec(
    s: Seq<char>,
    st: PState,
    acc: Seq<EntryModel>,
    sbv: Option<Seq<char>>,
    v: ValueModel,
) {
    sp_advance_progress_all(s);
}

#[via_fn]
proof fn sp_arr_done_dec(s: Seq<char>, st: PState, acc: Seq<EntryModel>) {
    sp_advance_progress_all(s);
}

#[via_fn]
proof fn sp_trailing_dec(s: Seq<char>, st: PState) {
    sp_advance_progress_all(s);
}




proof fn lemma_view_entries_push(es: Seq<JsonEntryValue>, e: JsonEntryValue)
    ensures
        view_entries(es.push(e)) == view_entries(es).push(view_entry(e)),
{
    assert(es.push(e).drop_last() =~= es);
    assert(es.push(e).last() == e);
}

proof fn lemma_replace_quotes_push(s: Seq<char>, c: char)
    ensures
        replace_quotes(s.push(c)) == replace_quotes(s) + (if c == '"' {
            seq!['\\', '"']
        } else {
            seq![c]
        }),
    decreases s.len(),
{
    if s.len() == 0 {
        assert(s.push(c).skip(1) =~= Seq::<char>::empty());
        assert(s =~= Seq::<char>::empty());
        if c == '"' {
            assert(replace_quotes(s.push(c)) =~= seq!['\\', '"']);
            assert(replace_quotes(s) + seq!['\\', '"'] =~= seq!['\\', '"']);
        } else {
            assert(replace_quotes(s.push(c)) =~= seq![c]);
            assert(replace_quotes(s) + seq![c] =~= seq![c]);
        }
    } else {
        assert(s.push(c)[0] == s[0]);
        assert(s.push(c).skip(1) =~= s.skip(1).push(c));
        lemma_replace_quotes_push(s.skip(1), c);
        if s[0] == '"' {
            assert(replace_quotes(s.push(c)) == seq!['\\', '"'] + replace_quotes(s.skip(1).push(c)));
            assert(seq!['\\', '"'] + (replace_quotes(s.skip(1)) + (if c == '"' {
                seq!['\\', '"']
            } else {
                seq![c]
            })) =~= replace_quotes(s) + (if c == '"' {
                seq!['\\', '"']
            } else {
                seq![c]
            }));
        } else {
            assert(replace_quotes(s.push(c)) == seq![s[0]] + replace_quotes(s.skip(1).push(c)));
            assert(seq![s[0]] + (replace_quotes(s.skip(1)) + (if c == '"' {
                seq!['\\', '"']
            } else {
                seq![c]
            })) =~= replace_quotes(s) + (if c == '"' {
                seq!['\\', '"']
            } else {
                seq![c]
            }));
        }
    }
}

/// Re-escapes every double quote in the decoded string content.
#[verifier::loop_isolation(false)]
fn replace_quotes_exec(s: &String) -> (r: String)
    ensures
        r@ == replace_quotes(s@),
{
    let v = str_to_chars(s.as_str());
    let mut out: Vec<char> = Vec::new();
    let mut i: usize = 0;
    proof {
        assert(v@.take(0) =~= Seq::<char>::empty());
        assert(out@ =~= replace_quotes(v@.take(0)));
    }
    while i < v.len()
        invariant
            0 <= i <= v@.len(),
            v@ == s@,
            out@ == replace_quotes(v@.take(i as int)),
        decreases v@.len() - i,
    {
        let c = v[i];
        if c == '"' {
            out.push('\\');
            out.push('"');
        } else {
            out.push(c);
        }
        proof {
            assert(v@.take(i + 1) =~= v@.take(i as int).push(v@[i as int]));
            lemma_replace_quotes_push(v@.take(i as int), v@[i as int]);
            assert(out@ =~= replace_quotes(v@.take(i + 1)));
        }
        i += 1;
    }
    proof {
        assert(v@.take(v@.len() as int) =~= v@);
    }
    chars_to_string(&out)
}

/// How one executable parsing step relates to its specification: the same
/// value and state on success, the same syntax error on failure.
pub open spec fn parse_result_matches(
    spec_r: Result<(ValueModel, PState), SyntaxErrorModel>,
    r: Result<JsonValue, JsonFixerError>,
    stf: PState,
) -> bool {
    match spec_r {
        Ok(t) => r matches Ok(v) && view_value(v) == t.0 && stf == t.1,
        Err(e) => r matches Err(JsonFixerError::Syntax(se)) && err_model(se) == e,
    }
}

/// The parser: the tokenizer, one lookahead token, the configuration, and
/// the error of the very first fetch, kept so the run reports it.
pub struct JsonParser {
    tokenizer: JsonTokenizer,
    current_token: Option<Token>,
    first_error: Option<SyntaxError>,
    config: JsonFixerConfig,
}

impl JsonParser {
    /// The input text as a character sequence.
    pub closed spec fn chars(&self) -> Seq<char> {
        self.tokenizer.chars()
    }

    /// The parser's cursor as the specification sees it.
    pub closed spec fn pstate(&self) -> PState {
        PState {
            cur: match self.current_token {
                Some(t) => Some((token_lexeme(t), token_position(t))),
                None => None,
            },
            lex: self.tokenizer.cursor(),
        }
    }

    pub closed spec fn cfg(&self) -> JsonFixerConfig {
        self.config
    }

    /// The error on which the first fetch stopped, if it failed.
    pub closed spec fn first_err(&self) -> Option<SyntaxErrorModel> {
        match self.first_error {
            Some(se) => Some(err_model(se)),
            None => None,
        }
    }

    pub closed spec fn wf(&self) -> bool {
        self.tokenizer.wf()
    }

    /// Creates a parser and fetches the first token; a failure of that
    /// first fetch leaves no lookahead and is kept aside, so that the run
    /// reports the first error of the pass.
    pub fn new(input: &str, config: JsonFixerConfig) -> (r: Self)
        ensures
            r.chars() == input@,
            r.pstate() == sp_init(input@),
            r.cfg() == config,
            r.wf(),
            r.first_err() == (match spec_next_token(input@, 0, start_position()) {
                LexOut::Fail(e, l) => Some(e),
                _ => None::<SyntaxErrorModel>,
            }),
    {
        let mut parser = JsonParser {
            tokenizer: JsonTokenizer::new(input),
            current_token: None,
            first_error: None,
            config: config,
        };
        let ghost st_start = parser.pstate();
        proof {
            assert(st_start == PState {
                cur: None,
                lex: LexState { i: 0, pos: start_position() },
            });
        }
        match parser.advance() {
            Ok(u) => {},
            Err(e) => {
                proof {
                    assert(sp_advance(input@, st_start) is Err);
                    assert(spec_next_token(input@, 0, start_position()) is Fail);
                }
                match e {
                    JsonFixerError::Syntax(se) => {
                        parser.first_error = Some(se);
                    },
                    _ => {
                        proof {
                            assert(false);
                        }
                    },
                }
            },
        }
        parser
    }

    fn advance(&mut self) -> (r: Result<(), JsonFixerError>)
        requires
            old(self).wf(),
        ensures
            final(self).chars() == old(self).chars(),
            final(self).cfg() == old(self).cfg(),
            final(self).first_err() == old(self).first_err(),
            final(self).wf(),
            match sp_advance(old(self).chars(), old(self).pstate()) {
                Ok(st1) => r is Ok && final(self).pstate() == st1,
                Err(e) => r matches Err(JsonFixerError::Syntax(se)) && err_model(se) == e,
            },
            match spec_next_token(
                old(self).chars(),
                old(self).pstate().lex.i,
                old(self).pstate().lex.pos,
            ) {
                LexOut::Fail(e, l2) => final(self).pstate() == (PState {
                    cur: old(self).pstate().cur,
                    lex: l2,
                }),
                _ => true,
            },
    {
        match self.tokenizer.next_token() {
            Ok(t) => {
                self.current_token = t;
                Ok(())
            },
            Err(e) => Err(e),
        }
    }

    /// Parses one value: an object or array in full, a scalar leaving its
    /// token as the lookahead.  The result is exactly `sp_parse_value` at
    /// the parser's state.
    fn parse_value(&mut self) -> (r: Result<JsonValue, JsonFixerError>)
        requires
            old(self).wf(),
        ensures
            final(self).chars() == old(self).chars(),
            final(self).cfg() == old(self).cfg(),
            final(self).wf(),
            parse_result_matches(
                sp_parse_value(old(self).chars(), old(self).pstate()),
                r,
                final(self).pstate(),
            ),
            r is Ok ==> sp_rem(old(self).chars(), final(self).pstate()) <= sp_rem(
                old(self).chars(),
                old(self).pstate(),
            ) && (final(self).pstate().cur is Some ==> old(self).pstate().cur is Some),
            (r matches Ok(v) && (v is Array || v is Object)) ==> (sp_rem(
                old(self).chars(),
                final(self).pstate(),
            ) < sp_rem(old(self).chars(), old(self).pstate()) || final(self).pstate().cur is None),
            r is Ok ==> sp_settled(old(self).chars(), final(self).pstate()),
        decreases
            sp_rem(self.chars(), self.pstate()),
            sp_cur_rank(self.pstate()),
            3int,
    {
        let pos_now = self.tokenizer.current_position();
        match &self.current_token {
            Some(Token::LeftBrace(_)) => self.parse_object(),
            Some(Token::LeftBracket(_)) => self.parse_array(),
            Some(Token::String(sv, _)) => Ok(JsonValue::String(replace_quotes_exec(sv))),
            Some(Token::Number(n, pos)) => {
                let nc = str_to_chars(n.as_str());
                if is_valid_number(&nc) {
                    Ok(JsonValue::Number(n.clone()))
                } else {
                    Err(JsonFixerError::Syntax(SyntaxError::InvalidNumber(n.clone(), *pos)))
                }
            },
            Some(Token::Boolean(b, _)) => Ok(JsonValue::Boolean(*b)),
            Some(Token::Null(_)) => Ok(JsonValue::Null),
            Some(Token::UnquotedString(sv, pos)) => Err(JsonFixerError::Syntax(
                SyntaxError::UnexpectedToken(sv.clone(), *pos),
            )),
            None => Err(JsonFixerError::Syntax(SyntaxError::UnexpectedEndOfInput(pos_now))),
            Some(unexpected) => {
                let msg = unexpected.get();
                let pos = unexpected.pos();
                Err(JsonFixerError::Syntax(SyntaxError::UnexpectedToken(msg, *pos)))
            },
        }
    }
}


/// A parser state with no lookahead only ever arises at the end of the
/// input once parsing is under way.
pub open spec fn sp_settled(s: Seq<char>, st: PState) -> bool {
    st.cur is None ==> st.lex.i >= s.len()
}

impl JsonParser {
    /// Parses an object after the opening brace was sighted.
    fn parse_object(&mut self) -> (r: Result<JsonValue, JsonFixerError>)
        requires
            old(self).wf(),
            old(self).pstate().cur is Some,
        ensures
            final(self).chars() == old(self).chars(),
            final(self).cfg() == old(self).cfg(),
            final(self).wf(),
            parse_result_matches(
                sp_parse_object(old(self).chars(), old(self).pstate()),
                r,
                final(self).pstate(),
            ),
            r is Ok ==> sp_rem(old(self).chars(), final(self).pstate()) <= sp_rem(
                old(self).chars(),
                old(self).pstate(),
            ) && (sp_rem(old(self).chars(), final(self).pstate()) < sp_rem(
                old(self).chars(),
                old(self).pstate(),
            ) || final(self).pstate().cur is None),
            r is Ok ==> sp_settled(old(self).chars(), final(self).pstate()),
        decreases
            sp_rem(self.chars(), self.pstate()),
            sp_cur_rank(self.pstate()),
            2int,
    {
        let ghost s = self.chars();
        let ghost st0 = self.pstate();
        proof {
            sp_advance_progress(s, st0);
        }
        match self.advance() {
            Err(e) => Err(e),
            Ok(u) => {
                let obj: Vec<JsonEntryValue> = Vec::new();
                proof {
                    assert(view_entries(obj@) =~= Seq::<EntryModel>::empty());
                }
                self.obj_entries(obj)
            },
        }
    }

    /// The object entry loop, one recursive step per entry.
    fn obj_entries(&mut self, acc: Vec<JsonEntryValue>) -> (r: Result<JsonValue, JsonFixerError>)
        requires
            old(self).wf(),
            sp_settled(old(self).chars(), old(self).pstate()),
        ensures
            final(self).chars() == old(self).chars(),
            final(self).cfg() == old(self).cfg(),
            final(self).wf(),
            parse_result_matches(
                sp_obj_entries(old(self).chars(), old(self).pstate(), view_entries(acc@)),
                r,
                final(self).pstate(),
            ),
            r is Ok ==> sp_rem(old(self).chars(), final(self).pstate()) <= sp_rem(
                old(self).chars(),
                old(self).pstate(),
            ),
            r is Ok ==> sp_settled(old(self).chars(), final(self).pstate()),
            (r is Ok && old(self).pstate().cur is None) ==> final(self).pstate().cur is None,
        decreases
            sp_rem(self.chars(), self.pstate()),
            sp_cur_rank(self.pstate()),
            9int,
    {
        let ghost s = self.chars();
        let ghost st0 = self.pstate();
        proof {
            sp_advance_progress(s, st0);
        }
        let at_end = self.current_token.is_none();
        let is_rbrace = matches!(&self.current_token, Some(Token::RightBrace(_)));
        let is_comma = matches!(&self.current_token, Some(Token::Comma(_)));
        if at_end || is_rbrace {
            match self.advance() {
                Err(e) => Err(e),
                Ok(u) => Ok(JsonValue::Object(acc)),
            }
        } else if is_comma {
            match self.advance() {
                Err(e) => Err(e),
                Ok(u) => self.obj_entries(acc),
            }
        } else {
            let ws: Option<String> = match &self.current_token {
                Some(Token::Whitespace(sp, _)) => Some(sp.clone()),
                _ => None,
            };
            match ws {
                Some(sp) => match self.advance() {
                    Err(e) => Err(e),
                    Ok(u) => self.obj_key(acc, Some(sp)),
                },
                None => self.obj_key(acc, None),
            }
        }
    }

    /// The key position of one object entry.
    fn obj_key(
        &mut self,
        acc: Vec<JsonEntryValue>,
        sbk: Option<String>,
    ) -> (r: Result<JsonValue, JsonFixerError>)
        requires
            old(self).wf(),
            sp_settled(old(self).chars(), old(self).pstate()),
        ensures
            final(self).chars() == old(self).chars(),
            final(self).cfg() == old(self).cfg(),
            final(self).wf(),
            parse_result_matches(
                sp_obj_key(
                    old(self).chars(),
                    old(self).pstate(),
                    view_entries(acc@),
                    opt_str_view(sbk),
                ),
                r,
                final(self).pstate(),
            ),
            r is Ok ==> sp_rem(old(self).chars(), final(self).pstate()) <= sp_rem(
                old(self).chars(),
                old(self).pstate(),
            ),
            r is Ok ==> sp_settled(old(self).chars(), final(self).pstate()),
        decreases
            sp_rem(self.chars(), self.pstate()),
            sp_cur_rank(self.pstate()),
            8int,
    {
        let ghost s = self.chars();
        let ghost st0 = self.pstate();
        proof {
            sp_advance_progress(s, st0);
        }
        let at_end = self.current_token.is_none();
        let is_rbrace = matches!(&self.current_token, Some(Token::RightBrace(_)));
        let is_comma = matches!(&self.current_token, Some(Token::Comma(_)));
        if at_end || is_rbrace {
            let mut acc2 = acc;
            let entry = JsonEntryValue {
                space_bf_key: sbk,
                key: None,
                space_af_key: None,
                space_bf_val: None,
                value: None,
                space_af_val: None,
            };
            let ghost prev = acc2@;
            acc2.push(entry);
            proof {
                lemma_view_entries_push(prev, acc2@.last());
            }
            match self.advance() {
                Err(e) => Err(e),
                Ok(u) => Ok(JsonValue::Object(acc2)),
            }
        } else if is_comma {
            let mut acc2 = acc;
            let entry = JsonEntryValue {
                space_bf_key: sbk,
                key: None,
                space_af_key: None,
                space_bf_val: None,
                value: None,
                space_af_val: None,
            };
            let ghost prev = acc2@;
            acc2.push(entry);
            proof {
                lemma_view_entries_push(prev, acc2@.last());
            }
            match self.advance() {
                Err(e) => Err(e),
                Ok(u) => self.obj_entries(acc2),
            }
        } else {
            let key: Option<String> = match &self.current_token {
                Some(Token::String(k, _)) => Some(k.clone()),
                Some(Token::UnquotedString(k, _)) => Some(k.clone()),
                _ => None,
            };
            match key {
                Some(k) => match self.advance() {
                    Err(e) => Err(e),
                    Ok(u) => self.obj_colon(acc, sbk, k),
                },
                None => {
                    // a token that cannot open an entry is fatal
                    let t = match &self.current_token {
                        Some(t) => t,
                        None => unreached(),
                    };
                    let mut msg = str_to_chars("\nExpected a 'Key' after '{' but found ");
                    let mut rest = str_to_chars(t.get().as_str());
                    msg.append(&mut rest);
                    let pos = *t.pos();
                    Err(JsonFixerError::Syntax(SyntaxError::UnexpectedToken(
                        chars_to_string(&msg),
                        pos,
                    )))
                },
            }
        }
    }

    /// Optional whitespace between a key and its colon.
    fn obj_colon(
        &mut self,
        acc: Vec<JsonEntryValue>,
        sbk: Option<String>,
        k: String,
    ) -> (r: Result<JsonValue, JsonFixerError>)
        requires
            old(self).wf(),
            sp_settled(old(self).chars(), old(self).pstate()),
        ensures
            final(self).chars() == old(self).chars(),
            final(self).cfg() == old(self).cfg(),
            final(self).wf(),
            parse_result_matches(
                sp_obj_colon(
                    old(self).chars(),
                    old(self).pstate(),
                    view_entries(acc@),
                    opt_str_view(sbk),
                    k@,
                ),
                r,
                final(self).pstate(),
            ),
            r is Ok ==> sp_rem(old(self).chars(), final(self).pstate()) <= sp_rem(
                old(self).chars(),
                old(self).pstate(),
            ),
            r is Ok ==> sp_settled(old(self).chars(), final(self).pstate()),
        decreases
            sp_rem(self.chars(), self.pstate()),
            sp_cur_rank(self.pstate()),
            7int,
    {
        let ghost s = self.chars();
        let ghost st0 = self.pstate();
        proof {
            sp_advance_progress(s, st0);
        }
        let ws: Option<String> = match &self.current_token {
            Some(Token::Whitespace(sp, _)) => Some(sp.clone()),
            _ => None,
        };
        match ws {
            Some(sp) => match self.advance() {
                Err(e) => Err(e),
                Ok(u) => self.obj_colon2(acc, sbk, k, Some(sp)),
            },
            None => self.obj_colon2(acc, sbk, k, None),
        }
    }

    /// The colon after a key; its absence is fatal.
    fn obj_colon2(
        &mut self,
        acc: Vec<JsonEntryValue>,
        sbk: Option<String>,
        k: String,
        sak: Option<String>,
    ) -> (r: Result<JsonValue, JsonFixerError>)
        requires
            old(self).wf(),
            sp_settled(old(self).chars(), old(self).pstate()),
        ensures
            final(self).chars() == old(self).chars(),
            final(self).cfg() == old(self).cfg(),
            final(self).wf(),
            parse_result_matches(
                sp_obj_colon2(
                    old(self).chars(),
                    old(self).pstate(),
                    view_entries(acc@),
                    opt_str_view(sbk),
                    k@,
                    opt_str_view(sak),
                ),
                r,
                final(self).pstate(),
            ),
            r is Ok ==> sp_rem(old(self).chars(), final(self).pstate()) <= sp_rem(
                old(self).chars(),
                old(self).pstate(),
            ),
            r is Ok ==> sp_settled(old(self).chars(), final(self).pstate()),
        decreases
            sp_rem(self.chars(), self.pstate()),
            sp_cur_rank(self.pstate()),
            6int,
    {
        let ghost s = self.chars();
        let ghost st0 = self.pstate();
        proof {
            sp_advance_progress(s, st0);
        }
        let pos_now = self.tokenizer.current_position();
        let is_colon = matches!(&self.current_token, Some(Token::Colon(_)));
        if is_colon {
            match self.advance() {
                Err(e) => Err(e),
                Ok(u) => self.obj_value(acc, sbk, k, sak),
            }
        } else {
            match &self.current_token {
                Some(t) => {
                    let mut msg = str_to_chars("\nExpected ':' after a 'key' but found ");
                    let mut rest = str_to_chars(t.get().as_str());
                    msg.append(&mut rest);
                    let pos = *t.pos();
                    Err(JsonFixerError::Syntax(SyntaxError::UnexpectedToken(
                        chars_to_string(&msg),
                        pos,
                    )))
                },
                None => Err(JsonFixerError::Syntax(SyntaxError::UnexpectedEndOfInput(pos_now))),
            }
        }
    }

    /// Optional whitespace between the colon and the value.
    fn obj_value(
        &mut self,
        acc: Vec<JsonEntryValue>,
        sbk: Option<String>,
        k: String,
        sak: Option<String>,
    ) -> (r: Result<JsonValue, JsonFixerError>)
        requires
            old(self).wf(),
            sp_settled(old(self).chars(), old(self).pstate()),
        ensures
            final(self).chars() == old(self).chars(),
            final(self).cfg() == old(self).cfg(),
            final(self).wf(),
            parse_result_matches(
                sp_obj_value(
                    old(self).chars(),
                    old(self).pstate(),
                    view_entries(acc@),
                    opt_str_view(sbk),
                    k@,
                    opt_str_view(sak),
                ),
                r,
                final(self).pstate(),
            ),
            r is Ok ==> sp_rem(old(self).chars(), final(self).pstate()) <= sp_rem(
                old(self).chars(),
                old(self).pstate(),
            ),
            r is Ok ==> sp_settled(old(self).chars(), final(self).pstate()),
        decreases
            sp_rem(self.chars(), self.pstate()),
            sp_cur_rank(self.pstate()),
            5int,
    {
        let ghost s = self.chars();
        let ghost st0 = self.pstate();
        proof {
            sp_advance_progress(s, st0);
        }
        let ws: Option<String> = match &self.current_token {
            Some(Token::Whitespace(sp, _)) => Some(sp.clone()),
            _ => None,
        };
        match ws {
            Some(sp) => match self.advance() {
                Err(e) => Err(e),
                Ok(u) => self.obj_value2(acc, sbk, k, sak, Some(sp)),
            },
            None => self.obj_value2(acc, sbk, k, sak, None),
        }
    }

    /// The value of one object entry, trailing whitespace, and the
    /// unconditional lookahead consumption that ends an entry.
    fn obj_value2(
        &mut self,
        acc: Vec<JsonEntryValue>,
        sbk: Option<String>,
        k: String,
        sak: Option<String>,
        sbv: Option<String>,
    ) -> (r: Result<JsonValue, JsonFixerError>)
        requires
            old(self).wf(),
            sp_settled(old(self).chars(), old(self).pstate()),
        ensures
            final(self).chars() == old(self).chars(),
            final(self).cfg() == old(self).cfg(),
            final(self).wf(),
            parse_result_matches(
                sp_obj_value2(
                    old(self).chars(),
                    old(self).pstate(),
                    view_entries(acc@),
                    opt_str_view(sbk),
                    k@,
                    opt_str_view(sak),
                    opt_str_view(sbv),
                ),
                r,
                final(self).pstate(),
            ),
            r is Ok ==> sp_rem(old(self).chars(), final(self).pstate()) <= sp_rem(
                old(self).chars(),
                old(self).pstate(),
            ),
            r is Ok ==> sp_settled(old(self).chars(), final(self).pstate()),
        decreases
            sp_rem(self.chars(), self.pstate()),
            sp_cur_rank(self.pstate()),
            4int,
    {
        let ghost s = self.chars();
        let ghost st0 = self.pstate();
        if self.current_token.is_none() {
            let pos_now = self.tokenizer.current_position();
            return Err(JsonFixerError::Syntax(SyntaxError::UnexpectedEndOfInput(pos_now)));
        }
        match self.parse_value() {
            Err(e) => Err(e),
            Ok(v) => {
                let ghost st1 = self.pstate();
                proof {
                    assert(sp_keep(s, st0, st1) == st1);
                    sp_advance_progress(s, st1);
                }
                let ws: Option<String> = match &self.current_token {
                    Some(Token::Whitespace(sp, _)) => Some(sp.clone()),
                    _ => None,
                };
                let sav: Option<String> = match ws {
                    Some(sp) => {
                        match self.advance() {
                            Err(e) => {
                                return Err(e);
                            },
                            Ok(u) => {},
                        }
                        Some(sp)
                    },
                    None => None,
                };
                let entry = JsonEntryValue {
                    space_bf_key: sbk,
                    key: Some(k),
                    space_af_key: sak,
                    space_bf_val: sbv,
                    value: Some(v),
                    space_af_val: sav,
                };
                let mut acc2 = acc;
                let ghost prev = acc2@;
                acc2.push(entry);
                proof {
                    lemma_view_entries_push(prev, acc2@.last());
                }
                self.obj_done(acc2)
            },
        }
    }

    /// The advance at the end of one object entry, then back to the loop.
    fn obj_done(&mut self, acc: Vec<JsonEntryValue>) -> (r: Result<JsonValue, JsonFixerError>)
        requires
            old(self).wf(),
            sp_settled(old(self).chars(), old(self).pstate()),
        ensures
            final(self).chars() == old(self).chars(),
            final(self).cfg() == old(self).cfg(),
            final(self).wf(),
            parse_result_matches(
                sp_obj_done(old(self).chars(), old(self).pstate(), view_entries(acc@)),
                r,
                final(self).pstate(),
            ),
            r is Ok ==> sp_rem(old(self).chars(), final(self).pstate()) <= sp_rem(
                old(self).chars(),
                old(self).pstate(),
            ),
            r is Ok ==> sp_settled(old(self).chars(), final(self).pstate()),
        decreases
            sp_rem(self.chars(), self.pstate()),
            sp_cur_rank(self.pstate()),
            3int,
    {
        let ghost s = self.chars();
        let ghost st0 = self.pstate();
        proof {
            sp_advance_progress(s, st0);
        }
        if self.current_token.is_none() {
            match self.advance() {
                Err(e) => Err(e),
                Ok(u) => Ok(JsonValue::Object(acc)),
            }
        } else {
            match self.advance() {
                Err(e) => Err(e),
                Ok(u) => self.obj_entries(acc),
            }
        }
    }
}


impl JsonParser {
    /// Parses an array after the opening bracket was sighted.
    fn parse_array(&mut self) -> (r: Result<JsonValue, JsonFixerError>)
        requires
            old(self).wf(),
            old(self).pstate().cur is Some,
        ensures
            final(self).chars() == old(self).chars(),
            final(self).cfg() == old(self).cfg(),
            final(self).wf(),
            parse_result_matches(
                sp_parse_array(old(self).chars(), old(self).pstate()),
                r,
                final(self).pstate(),
            ),
            r is Ok ==> sp_rem(old(self).chars(), final(self).pstate()) <= sp_rem(
                old(self).chars(),
                old(self).pstate(),
            ) && (sp_rem(old(self).chars(), final(self).pstate()) < sp_rem(
                old(self).chars(),
                old(self).pstate(),
            ) || final(self).pstate().cur is None),
            r is Ok ==> sp_settled(old(self).chars(), final(self).pstate()),
        decreases
            sp_rem(self.chars(), self.pstate()),
            sp_cur_rank(self.pstate()),
            2int,
    {
        let ghost s = self.chars();
        let ghost st0 = self.pstate();
        proof {
            sp_advance_progress(s, st0);
        }
        match self.advance() {
            Err(e) => Err(e),
            Ok(u) => {
                let arr: Vec<JsonEntryValue> = Vec::new();
                proof {
                    assert(view_entries(arr@) =~= Seq::<EntryModel>::empty());
                }
                self.arr_entries(arr)
            },
        }
    }

    /// The array slot loop, one recursive step per slot.
    fn arr_entries(&mut self, acc: Vec<JsonEntryValue>) -> (r: Result<JsonValue, JsonFixerError>)
        requires
            old(self).wf(),
            sp_settled(old(self).chars(), old(self).pstate()),
        ensures
            final(self).chars() == old(self).chars(),
            final(self).cfg() == old(self).cfg(),
            final(self).wf(),
            parse_result_matches(
                sp_arr_entries(old(self).chars(), old(self).pstate(), view_entries(acc@)),
                r,
                final(self).pstate(),
            ),
            r is Ok ==> sp_rem(old(self).chars(), final(self).pstate()) <= sp_rem(
                old(self).chars(),
                old(self).pstate(),
            ),
            r is Ok ==> sp_settled(old(self).chars(), final(self).pstate()),
            (r is Ok && old(self).pstate().cur is None) ==> final(self).pstate().cur is None,
        decreases
            sp_rem(self.chars(), self.pstate()),
            sp_cur_rank(self.pstate()),
            9int,
    {
        let ghost s = self.chars();
        let ghost st0 = self.pstate();
        proof {
            sp_advance_progress(s, st0);
        }
        let at_end = self.current_token.is_none();
        let is_rbracket = matches!(&self.current_token, Some(Token::RightBracket(_)));
        let is_comma = matches!(&self.current_token, Some(Token::Comma(_)));
        if at_end || is_rbracket {
            match self.advance() {
                Err(e) => Err(e),
                Ok(u) => Ok(JsonValue::Array(acc)),
            }
        } else if is_comma {
            match self.advance() {
                Err(e) => Err(e),
                Ok(u) => self.arr_entries(acc),
            }
        } else {
            let ws: Option<String> = match &self.current_token {
                Some(Token::Whitespace(sp, _)) => Some(sp.clone()),
                _ => None,
            };
            match ws {
                Some(sp) => match self.advance() {
                    Err(e) => Err(e),
                    Ok(u) => self.arr_slot(acc, Some(sp)),
                },
                None => self.arr_slot(acc, None),
            }
        }
    }

    /// The value position of one array slot.
    fn arr_slot(
        &mut self,
        acc: Vec<JsonEntryValue>,
        sbv: Option<String>,
    ) -> (r: Result<JsonValue, JsonFixerError>)
        requires
            old(self).wf(),
            sp_settled(old(self).chars(), old(self).pstate()),
        ensures
            final(self).chars() == old(self).chars(),
            final(self).cfg() == old(self).cfg(),
            final(self).wf(),
            parse_result_matches(
                sp_arr_slot(
                    old(self).chars(),
                    old(self).pstate(),
                    view_entries(acc@),
                    opt_str_view(sbv),
                ),
                r,
                final(self).pstate(),
            ),
            r is Ok ==> sp_rem(old(self).chars(), final(self).pstate()) <= sp_rem(
                old(self).chars(),
                old(self).pstate(),
            ),
            r is Ok ==> sp_settled(old(self).chars(), final(self).pstate()),
        decreases
            sp_rem(self.chars(), self.pstate()),
            sp_cur_rank(self.pstate()),
            8int,
    {
        let ghost s = self.chars();
        let ghost st0 = self.pstate();
        proof {
            sp_advance_progress(s, st0);
        }
        if self.current_token.is_none() {
            let pos_now = self.tokenizer.current_position();
            return Err(JsonFixerError::Syntax(SyntaxError::UnexpectedEndOfInput(pos_now)));
        }
        let is_rbracket = matches!(&self.current_token, Some(Token::RightBracket(_)));
        let is_comma = matches!(&self.current_token, Some(Token::Comma(_)));
        if is_rbracket {
            let mut acc2 = acc;
            let entry = JsonEntryValue {
                space_bf_key: None,
                key: None,
                space_af_key: None,
                space_bf_val: sbv,
                value: None,
                space_af_val: None,
            };
            let ghost prev = acc2@;
            acc2.push(entry);
            proof {
                lemma_view_entries_push(prev, acc2@.last());
            }
            match self.advance() {
                Err(e) => Err(e),
                Ok(u) => Ok(JsonValue::Array(acc2)),
            }
        } else if is_comma {
            let mut acc2 = acc;
            let entry = JsonEntryValue {
                space_bf_key: None,
                key: None,
                space_af_key: None,
                space_bf_val: sbv,
                value: None,
                space_af_val: None,
            };
            let ghost prev = acc2@;
            acc2.push(entry);
            proof {
                lemma_view_entries_push(prev, acc2@.last());
            }
            match self.advance() {
                Err(e) => Err(e),
                Ok(u) => self.arr_entries(acc2),
            }
        } else {
            match self.parse_value() {
                Err(e) => Err(e),
                Ok(v) => {
                    let ghost st1 = self.pstate();
                    proof {
                        sp_advance_progress(s, st1);
                    }
                    let primitive = !matches!(&v, JsonValue::Array(_) | JsonValue::Object(_));
                    if primitive {
                        proof {
                            assert(sp_keep(s, st0, st1) == st1);
                        }
                        match self.advance() {
                            Err(e) => Err(e),
                            Ok(u) => self.arr_after(acc, sbv, v),
                        }
                    } else {
                        proof {
                            assert(sp_keep_strict(s, st0, st1) == st1);
                        }
                        self.arr_after(acc, sbv, v)
                    }
                },
            }
        }
    }

    /// Optional whitespace after an array value, then back to the loop.
    fn arr_after(
        &mut self,
        acc: Vec<JsonEntryValue>,
        sbv: Option<String>,
        v: JsonValue,
    ) -> (r: Result<JsonValue, JsonFixerError>)
        requires
            old(self).wf(),
            sp_settled(old(self).chars(), old(self).pstate()),
        ensures
            final(self).chars() == old(self).chars(),
            final(self).cfg() == old(self).cfg(),
            final(self).wf(),
            parse_result_matches(
                sp_arr_after(
                    old(self).chars(),
                    old(self).pstate(),
                    view_entries(acc@),
                    opt_str_view(sbv),
                    view_value(v),
                ),
                r,
                final(self).pstate(),
            ),
            r is Ok ==> sp_rem(old(self).chars(), final(self).pstate()) <= sp_rem(
                old(self).chars(),
                old(self).pstate(),
            ),
            r is Ok ==> sp_settled(old(self).chars(), final(self).pstate()),
        decreases
            sp_rem(self.chars(), self.pstate()),
            sp_cur_rank(self.pstate()),
            11int,
    {
        let ghost s = self.chars();
        let ghost st0 = self.pstate();
        proof {
            sp_advance_progress(s, st0);
        }
        let ws: Option<String> = match &self.current_token {
            Some(Token::Whitespace(sp, _)) => Some(sp.clone()),
            _ => None,
        };
        let sav: Option<String> = match ws {
            Some(sp) => {
                match self.advance() {
                    Err(e) => {
                        return Err(e);
                    },
                    Ok(u) => {},
                }
                Some(sp)
            },
            None => None,
        };
        let entry = JsonEntryValue {
            space_bf_key: None,
            key: None,
            space_af_key: None,
            space_bf_val: sbv,
            value: Some(v),
            space_af_val: sav,
        };
        let mut acc2 = acc;
        let ghost prev = acc2@;
        acc2.push(entry);
        proof {
            lemma_view_entries_push(prev, acc2@.last());
        }
        self.arr_done(acc2)
    }

    /// Back to the slot loop after one array slot.
    fn arr_done(&mut self, acc: Vec<JsonEntryValue>) -> (r: Result<JsonValue, JsonFixerError>)
        requires
            old(self).wf(),
            sp_settled(old(self).chars(), old(self).pstate()),
        ensures
            final(self).chars() == old(self).chars(),
            final(self).cfg() == old(self).cfg(),
            final(self).wf(),
            parse_result_matches(
                sp_arr_done(old(self).chars(), old(self).pstate(), view_entries(acc@)),
                r,
                final(self).pstate(),
            ),
            r is Ok ==> sp_rem(old(self).chars(), final(self).pstate()) <= sp_rem(
                old(self).chars(),
                old(self).pstate(),
            ),
            r is Ok ==> sp_settled(old(self).chars(), final(self).pstate()),
        decreases
            sp_rem(self.chars(), self.pstate()),
            sp_cur_rank(self.pstate()),
            10int,
    {
        let ghost s = self.chars();
        let ghost st0 = self.pstate();
        proof {
            sp_advance_progress(s, st0);
        }
        if self.current_token.is_none() {
            match self.advance() {
                Err(e) => Err(e),
                Ok(u) => Ok(JsonValue::Array(acc)),
            }
        } else {
            self.arr_entries(acc)
        }
    }

    /// Parses the whole input and returns the rendered text: a failure of
    /// the first fetch is the run's error; otherwise one leading
    /// whitespace token is skipped, exactly one value is parsed and
    /// rendered under the configuration, and only whitespace may follow
    /// it — accumulated into the output when the layout is preserved.
    /// The result is exactly `sp_parse_run` at the parser's state.
    #[verifier::loop_isolation(false)]
    #[verifier::rlimit(100)]
    #[verifier::spinoff_prover]
    pub fn parse(&mut self) -> (r: Result<String, JsonFixerError>)
        requires
            old(self).wf(),
        ensures
            final(self).wf(),
            match old(self).first_err() {
                Some(e) => r matches Err(JsonFixerError::Syntax(se)) && err_model(se) == e,
                None => match sp_parse_run(old(self).chars(), old(self).pstate(), old(self).cfg()) {
                    Ok(t) => r matches Ok(out) && out@ == t,
                    Err(e) => r matches Err(JsonFixerError::Syntax(se)) && err_model(se) == e,
                },
            },
    {
        let ghost s = self.chars();
        let ghost st0 = self.pstate();
        let config = self.config;
        match &self.first_error {
            Some(se) => {
                return Err(JsonFixerError::Syntax(se.clone()));
            },
            None => {},
        }
        let is_ws_tok = matches!(&self.current_token, Some(Token::Whitespace(_, _)));
        if is_ws_tok {
            match self.advance() {
                Err(e) => {
                    return Err(e);
                },
                Ok(u) => {},
            }
        }
        let value = match self.parse_value() {
            Err(e) => {
                return Err(e);
            },
            Ok(v) => v,
        };
        let is_composite = matches!(&value, JsonValue::Array(_) | JsonValue::Object(_));
        if !is_composite {
            match self.advance() {
                Err(e) => {
                    return Err(e);
                },
                Ok(u) => {},
            }
        }
        let formatter = JsonFormatter;
        let mut output = match formatter.format(&value, &config) {
            Ok(out) => out,
            Err(e) => unreached(),
        };
        let ghost stm = self.pstate();
        let mut trailing_ws: Vec<char> = Vec::new();
        proof {
            assert(sp_parse_run_mid(s, st0, config) == Ok::<PState, SyntaxErrorModel>(stm));
            match sp_trailing(s, stm) {
                Ok(t) => {
                    assert(Seq::<char>::empty() + t =~= t);
                },
                Err(e) => {},
            }
        }
        loop
            invariant
                self.wf(),
                self.chars() == s,
                self.cfg() == config,
                sp_trailing(s, stm) == (match sp_trailing(s, self.pstate()) {
                    Ok(t) => Ok::<Seq<char>, SyntaxErrorModel>(trailing_ws@ + t),
                    Err(e) => Err::<Seq<char>, SyntaxErrorModel>(e),
                }),
                sp_parse_run_mid(s, st0, config) == Ok::<PState, SyntaxErrorModel>(stm),
            decreases sp_rem(s, self.pstate()), sp_cur_rank(self.pstate()),
        {
            let ws_text: Option<String> = match &self.current_token {
                Some(Token::Whitespace(sp, _)) => Some(sp.clone()),
                _ => None,
            };
            match ws_text {
                Some(sp) => {
                    let ghost stc = self.pstate();
                    let ghost prev_acc = trailing_ws@;
                    proof {
                        sp_advance_progress(s, stc);
                    }
                    match self.advance() {
                        Err(e) => {
                            return Err(e);
                        },
                        Ok(u) => {},
                    }
                    let mut part = str_to_chars(sp.as_str());
                    trailing_ws.append(&mut part);
                    proof {
                        match sp_trailing(s, self.pstate()) {
                            Ok(t) => {
                                assert(prev_acc + (sp@ + t) =~= trailing_ws@ + t);
                            },
                            Err(e) => {},
                        }
                    }
                },
                None => {
                    match &self.current_token {
                        Some(t) => {
                            let mut msg = str_to_chars("\nExpected  EOF but found ");
                            let mut rest = str_to_chars(t.get().as_str());
                            msg.append(&mut rest);
                            let pos = *t.pos();
                            return Err(JsonFixerError::Syntax(SyntaxError::UnexpectedToken(
                                chars_to_string(&msg),
                                pos,
                            )));
                        },
                        None => {
                            break;
                        },
                    }
                },
            }
        }
        proof {
            assert(sp_trailing(s, stm) == Ok::<Seq<char>, SyntaxErrorModel>(
                trailing_ws@ + Seq::<char>::empty(),
            ));
            assert(trailing_ws@ + Seq::<char>::empty() =~= trailing_ws@);
        }
        if self.config.preserve() {
            let tail = chars_to_string(&trailing_ws);
            output.append(tail.as_str());
        }
        Ok(output)
    }
}

/// The run of one `parse` call up to the point where only trailing
/// whitespace remains: the state after the value, with a scalar's own
/// token consumed; a composite already stands past its closing bracket.
pub open spec fn sp_parse_run_mid(s: Seq<char>, st0: PState, cfg: JsonFixerConfig) -> Result<
    PState,
    SyntaxErrorModel,
> {
    let st1r = if st0.cur matches Some((Lexeme::WsTok(w), p)) {
        sp_advance(s, st0)
    } else {
        Ok(st0)
    };
    match st1r {
        Err(e) => Err(e),
        Ok(st1) => match sp_parse_value(s, st1) {
            Err(e) => Err(e),
            Ok((v, st2)) => if v is Array || v is Object {
                Ok(st2)
            } else {
                sp_advance(s, st2)
            },
        },
    }
}

/// What one `parse` call returns when the parser stands at `st0`: the
/// rendered text of the parsed value, or the first fatal error.
pub open spec fn sp_parse_run(s: Seq<char>, st0: PState, cfg: JsonFixerConfig) -> Result<
    Seq<char>,
    SyntaxErrorModel,
> {
    let st1r = if st0.cur matches Some((Lexeme::WsTok(w), p)) {
        sp_advance(s, st0)
    } else {
        Ok(st0)
    };
    match st1r {
        Err(e) => Err(e),
        Ok(st1) => match sp_parse_value(s, st1) {
            Err(e) => Err(e),
            Ok((v, st2)) => {
                let st3r = if v is Array || v is Object {
                    Ok(st2)
                } else {
                    sp_advance(s, st2)
                };
                match st3r {
                    Err(e) => Err(e),
                    Ok(st3) => match sp_trailing(s, st3) {
                        Err(e) => Err(e),
                        Ok(ws) => if cfg.spec_preserve() {
                            Ok(crate::jsonformatter::render_value(v, 0, cfg) + ws)
                        } else {
                            Ok(crate::jsonformatter::render_value(v, 0, cfg))
                        },
                    },
                }
            },
        },
    }
}

} // verus!
