//! General properties of the library, each stated over the spec functions
//! that the executable functions are proved to implement.

use vstd::prelude::*;

use crate::chars::lex_lt;
use crate::chars::is_digit;
use crate::chars::all_digits;
use crate::chars::ascii_alnum;
use crate::chars::digit_run_end;
use crate::chars::is_ident_cont;
use crate::chars::is_ident_start;
use crate::chars::is_num_cont;
use crate::chars::valid_number_text;
use crate::json_tokenizer::ident_run_end;
use crate::json_tokenizer::adv_pos_over;
use crate::json_tokenizer::scan_string;
use crate::json_tokenizer::lex_number;
use crate::jsonformatter::deeper;
use crate::jsonformatter::indent_text;
use crate::jsonformatter::obj_row_text;
use crate::jsonformatter::render_obj_rows;
use crate::jsonformatter::seq_repeat;
use crate::jsonfixer_config::IndentStyle;
use crate::compact_config;
use crate::json_tokenizer::Lexeme;
use crate::json_tokenizer::LexOut;
use crate::json_tokenizer::LexState;
use crate::json_tokenizer::Position;
use crate::json_tokenizer::adv_pos;
use crate::json_tokenizer::num_run_end;
use crate::json_tokenizer::spec_next_token;
use crate::json_tokenizer::start_position;
use crate::jsonformatter::char_repeat;
use crate::jsonparser::EntryModel;
use crate::jsonparser::PState;
use crate::jsonparser::entry_model;
use crate::jsonparser::sp_advance;
use crate::jsonparser::sp_arr_done;
use crate::jsonparser::sp_arr_entries;
use crate::jsonparser::sp_arr_slot;
use crate::jsonparser::sp_arr_after;
use crate::jsonparser::sp_init;
use crate::jsonparser::sp_keep;
use crate::jsonparser::sp_parse_array;
use crate::jsonparser::sp_parse_value;
use crate::jsonparser::sp_trailing;
use crate::jsonparser::spec_fix;
use crate::jsonfixer_error::SyntaxErrorModel;
use crate::jsonfixer_config::JsonFixerConfig;
use crate::jsonformatter::RowModel;
use crate::jsonformatter::insert_row;
use crate::jsonformatter::key_or_empty;
use crate::jsonformatter::render_value;
use crate::jsonformatter::row_key_lt;
use crate::jsonformatter::sort_rows;
use crate::jsonparser::ValueModel;

verus! {

/// Number round-trip: a number's sign, decimal and exponent text is
/// rendered exactly as the document model holds it, in every mode and at
/// every depth — `1e5` stays `1e5` and is never expanded.
pub proof fn lemma_number_text_verbatim(n: Seq<char>, depth: usize, cfg: JsonFixerConfig)
    ensures
        render_value(ValueModel::Number(n), depth, cfg) == n,
{
}

proof fn lemma_lex_lt_connected(a: Seq<char>, b: Seq<char>)
    ensures
        lex_lt(a, b) || lex_lt(b, a) || a == b,
    decreases a.len(),
{
    if b.len() == 0 {
        if a.len() == 0 {
            assert(a =~= b);
        }
    } else if a.len() == 0 {
    } else if (a[0] as u32) < (b[0] as u32) || (b[0] as u32) < (a[0] as u32) {
    } else {
        assert(a[0] == b[0]) by {
            vstd::utf8::char_u32_cast(a[0], a[0] as u32);
            vstd::utf8::char_u32_cast(b[0], a[0] as u32);
        }
        lemma_lex_lt_connected(a.skip(1), b.skip(1));
        if !lex_lt(a, b) && !lex_lt(b, a) {
            assert(a.skip(1) == b.skip(1));
            assert(a =~= seq![a[0]] + a.skip(1));
            assert(b =~= seq![b[0]] + b.skip(1));
        }
    }
}

proof fn lemma_lex_lt_trans(a: Seq<char>, b: Seq<char>, c: Seq<char>)
    requires
        lex_lt(a, b),
        lex_lt(b, c),
    ensures
        lex_lt(a, c),
    decreases a.len(),
{
    if a.len() == 0 {
    } else if (a[0] as u32) < (b[0] as u32) {
        if (b[0] as u32) < (c[0] as u32) {
        } else {
            assert(b[0] == c[0]) by {
                assert(b[0] as u32 == c[0] as u32);
            }
        }
    } else {
        assert(a[0] == b[0]);
        if (b[0] as u32) < (c[0] as u32) {
        } else {
            assert(b[0] == c[0]) by {
                assert(b[0] as u32 == c[0] as u32);
            }
            lemma_lex_lt_trans(a.skip(1), b.skip(1), c.skip(1));
        }
    }
}

/// Keys are compared by a strict order: `no_less` is its complement, so a
/// chain of `no_less` steps never creates an inversion.
proof fn lemma_row_key_no_less_trans(
    pres: bool,
    a: Option<Seq<char>>,
    b: Option<Seq<char>>,
    c: Option<Seq<char>>,
)
    requires
        !row_key_lt(pres, b, a),
        !row_key_lt(pres, c, b),
    ensures
        !row_key_lt(pres, c, a),
{
    if row_key_lt(pres, c, a) {
        if pres {
            lemma_lex_lt_connected(key_or_empty(b), key_or_empty(a));
            lemma_lex_lt_connected(key_or_empty(c), key_or_empty(b));
            if lex_lt(key_or_empty(a), key_or_empty(b)) {
                lemma_lex_lt_trans(key_or_empty(c), key_or_empty(a), key_or_empty(b));
            } else if key_or_empty(a) == key_or_empty(b) {
            } else {
            }
        } else {
            match (a, b, c) {
                (Some(x), Some(y), Some(z)) => {
                    lemma_lex_lt_connected(y, x);
                    lemma_lex_lt_connected(z, y);
                    if lex_lt(x, y) {
                        lemma_lex_lt_trans(z, x, y);
                    }
                },
                _ => {},
            }
        }
    }
}

/// The rows are sorted when no later key orders strictly below an earlier
/// one.
pub open spec fn rows_sorted(pres: bool, rows: Seq<RowModel>) -> bool {
    forall|i: int, j: int|
        0 <= i < j < rows.len() ==> !row_key_lt(pres, #[trigger] rows[j].key, #[trigger] rows[i].key)
}

proof fn lemma_insert_row_sorted(pres: bool, sorted: Seq<RowModel>, x: RowModel)
    requires
        rows_sorted(pres, sorted),
    ensures
        rows_sorted(pres, insert_row(pres, sorted, x)),
        insert_row(pres, sorted, x).to_multiset() == sorted.to_multiset().insert(x),
        insert_row(pres, sorted, x).len() == sorted.len() + 1,
    decreases sorted.len(),
{
    let out = insert_row(pres, sorted, x);
    if sorted.len() > 0 && row_key_lt(pres, x.key, sorted.last().key) {
        let dl = sorted.drop_last();
        assert(rows_sorted(pres, dl)) by {
            assert(forall|i: int, j: int|
                0 <= i < j < dl.len() ==> !row_key_lt(
                    pres,
                    #[trigger] dl[j].key,
                    #[trigger] dl[i].key,
                ) || !(!row_key_lt(pres, sorted[j].key, sorted[i].key)));
        }
        lemma_insert_row_sorted(pres, dl, x);
        let inner = insert_row(pres, dl, x);
        assert(out == inner.push(sorted.last()));
        // every key in the inner insertion orders at or below the old last key
        assert forall|i: int| 0 <= i < inner.len() implies !row_key_lt(
            pres,
            sorted.last().key,
            #[trigger] inner[i].key,
        ) by {
            broadcast use vstd::seq_lib::group_to_multiset_ensures;

            assert(inner.to_multiset().contains(inner[i]));
            assert(dl.to_multiset().insert(x).contains(inner[i]));
            if inner[i] == x {
                lemma_lex_lt_asym_row(pres, x.key, sorted.last().key);
            } else {
                assert(dl.to_multiset().contains(inner[i]));
                let k = choose|k: int| 0 <= k < dl.len() && dl[k] == inner[i];
                assert(dl[k] == sorted[k]);
                assert(!row_key_lt(pres, sorted.last().key, sorted[k].key));
            }
        }
        assert(rows_sorted(pres, out)) by {
            assert(forall|i: int, j: int|
                0 <= i < j < out.len() && j < inner.len() ==> !row_key_lt(
                    pres,
                    #[trigger] out[j].key,
                    #[trigger] out[i].key,
                ));
            assert(forall|i: int| 0 <= i < inner.len() ==> out[i] == inner[i]);
        }
        assert(out.to_multiset() =~= sorted.to_multiset().insert(x)) by {
            broadcast use vstd::seq_lib::group_to_multiset_ensures;

            assert(out.to_multiset() =~= inner.to_multiset().insert(sorted.last()));
            assert(sorted =~= dl.push(sorted.last()));
            assert(sorted.to_multiset() =~= dl.to_multiset().insert(sorted.last()));
        }
    } else {
        assert(out == sorted.push(x));
        // the new last element orders at or above every existing one
        assert forall|i: int| 0 <= i < sorted.len() implies !row_key_lt(
            pres,
            x.key,
            #[trigger] sorted[i].key,
        ) by {
            if i < sorted.len() - 1 {
                lemma_row_key_no_less_trans(pres, sorted[i].key, sorted.last().key, x.key);
            }
        }
        assert(out.to_multiset() =~= sorted.to_multiset().insert(x)) by {
            broadcast use vstd::seq_lib::group_to_multiset_ensures;

        }
    }
}

proof fn lemma_lex_lt_asym_row(pres: bool, a: Option<Seq<char>>, b: Option<Seq<char>>)
    requires
        row_key_lt(pres, a, b),
    ensures
        !row_key_lt(pres, b, a),
{
    if row_key_lt(pres, b, a) {
        if pres {
            lemma_lex_lt_trans(key_or_empty(a), key_or_empty(b), key_or_empty(a));
            lemma_lex_lt_irrefl(key_or_empty(a));
        } else {
            match (a, b) {
                (Some(x), Some(y)) => {
                    lemma_lex_lt_trans(x, y, x);
                    lemma_lex_lt_irrefl(x);
                },
                _ => {},
            }
        }
    }
}

proof fn lemma_lex_lt_irrefl(a: Seq<char>)
    ensures
        !lex_lt(a, a),
    decreases a.len(),
{
    if a.len() > 0 {
        lemma_lex_lt_irrefl(a.skip(1));
    }
}

/// Sort-keys: sorting the rendered rows of an object yields the same rows
/// as a multiset, with their keys in ascending order; the renderer emits
/// them in exactly this order, so under `sort_keys` the keys of a rendered
/// object appear in ascending order whatever the source order was.
pub proof fn lemma_sort_rows_sorted(pres: bool, rows: Seq<RowModel>)
    ensures
        rows_sorted(pres, sort_rows(pres, rows)),
        sort_rows(pres, rows).to_multiset() == rows.to_multiset(),
        sort_rows(pres, rows).len() == rows.len(),
    decreases rows.len(),
{
    broadcast use vstd::seq_lib::group_to_multiset_ensures;

    if rows.len() == 0 {
        assert(sort_rows(pres, rows) =~= rows);
    } else {
        lemma_sort_rows_sorted(pres, rows.drop_last());
        lemma_insert_row_sorted(pres, sort_rows(pres, rows.drop_last()), rows.last());
        assert(rows =~= rows.drop_last().push(rows.last()));
        assert(rows.to_multiset() =~= rows.drop_last().to_multiset().insert(rows.last()));
    }
}


proof fn lemma_char_repeat_index(c: char, n: nat)
    ensures
        char_repeat(c, n).len() == n,
        forall|j: int| 0 <= j < n ==> char_repeat(c, n)[j] == c,
    decreases n,
{
    if n > 0 {
        lemma_char_repeat_index(c, (n - 1) as nat);
    }
}

/// Defect absorption, the loop step: at a comma token with nothing but
/// commas left before the closing bracket, the array slot loop consumes
/// them all, adds no entry, and closes the array.
pub proof fn lemma_arr_comma_run(s: Seq<char>, i: int, p: Position, q: Position, acc: Seq<EntryModel>)
    requires
        0 <= i <= s.len() - 1,
        forall|j: int| i <= j < s.len() - 1 ==> s[j] == ',',
        s[s.len() - 1] == ']',
    ensures
        ({
            let r = sp_arr_entries(
                s,
                PState { cur: Some((Lexeme::Comma, q)), lex: LexState { i, pos: p } },
                acc,
            );
            &&& r is Ok
            &&& r matches Ok(t) && t.0 == ValueModel::Array(acc) && t.1.cur is None
                && t.1.lex.i == s.len()
        }),
    decreases s.len() - i,
{
    let st = PState { cur: Some((Lexeme::Comma, q)), lex: LexState { i, pos: p } };
    let c = s[i];
    let p1 = adv_pos(p, c);
    if i < s.len() - 1 {
        assert(c == ',');
        assert(spec_next_token(s, i, p) == LexOut::Tok(
            Lexeme::Comma,
            p1,
            LexState { i: i + 1, pos: p1 },
        ));
        let stn = PState { cur: Some((Lexeme::Comma, p1)), lex: LexState { i: i + 1, pos: p1 } };
        assert(sp_advance(s, st) == Ok::<PState, SyntaxErrorModel>(stn));
        assert(sp_arr_entries(s, st, acc) == sp_arr_entries(s, stn, acc));
        lemma_arr_comma_run(s, i + 1, p1, p1, acc);
    } else {
        assert(c == ']');
        assert(spec_next_token(s, i, p) == LexOut::Tok(
            Lexeme::RBracket,
            p1,
            LexState { i: i + 1, pos: p1 },
        ));
        let stn = PState { cur: Some((Lexeme::RBracket, p1)), lex: LexState { i: i + 1, pos: p1 } };
        assert(sp_advance(s, st) == Ok::<PState, SyntaxErrorModel>(stn));
        assert(sp_arr_entries(s, st, acc) == sp_arr_entries(s, stn, acc));
        assert(spec_next_token(s, i + 1, p1) == LexOut::End);
        assert(sp_advance(s, stn) == Ok::<PState, SyntaxErrorModel>(
            PState { cur: None, lex: stn.lex },
        ));
    }
}

/// Defect absorption, the loop step for objects: at a comma token with
/// nothing but commas left before the closing brace, the object entry
/// loop consumes them all, adds no entry, and closes the object.
pub proof fn lemma_obj_comma_run(s: Seq<char>, i: int, p: Position, q: Position, acc: Seq<EntryModel>)
    requires
        0 <= i <= s.len() - 1,
        forall|j: int| i <= j < s.len() - 1 ==> s[j] == ',',
        s[s.len() - 1] == '}',
    ensures
        ({
            let r = crate::jsonparser::sp_obj_entries(
                s,
                PState { cur: Some((Lexeme::Comma, q)), lex: LexState { i, pos: p } },
                acc,
            );
            &&& r is Ok
            &&& r matches Ok(t) && t.0 == ValueModel::Object(acc) && t.1.cur is None
                && t.1.lex.i == s.len()
        }),
    decreases s.len() - i,
{
    let st = PState { cur: Some((Lexeme::Comma, q)), lex: LexState { i, pos: p } };
    let c = s[i];
    let p1 = adv_pos(p, c);
    if i < s.len() - 1 {
        assert(c == ',');
        assert(spec_next_token(s, i, p) == LexOut::Tok(
            Lexeme::Comma,
            p1,
            LexState { i: i + 1, pos: p1 },
        ));
        let stn = PState { cur: Some((Lexeme::Comma, p1)), lex: LexState { i: i + 1, pos: p1 } };
        assert(sp_advance(s, st) == Ok::<PState, SyntaxErrorModel>(stn));
        assert(crate::jsonparser::sp_obj_entries(s, st, acc) == crate::jsonparser::sp_obj_entries(
            s,
            stn,
            acc,
        ));
        lemma_obj_comma_run(s, i + 1, p1, p1, acc);
    } else {
        assert(c == '}');
        assert(spec_next_token(s, i, p) == LexOut::Tok(
            Lexeme::RBrace,
            p1,
            LexState { i: i + 1, pos: p1 },
        ));
        let stn = PState { cur: Some((Lexeme::RBrace, p1)), lex: LexState { i: i + 1, pos: p1 } };
        assert(sp_advance(s, st) == Ok::<PState, SyntaxErrorModel>(stn));
        assert(crate::jsonparser::sp_obj_entries(s, st, acc) == crate::jsonparser::sp_obj_entries(
            s,
            stn,
            acc,
        ));
        assert(spec_next_token(s, i + 1, p1) == LexOut::End);
        assert(sp_advance(s, stn) == Ok::<PState, SyntaxErrorModel>(
            PState { cur: None, lex: stn.lex },
        ));
    }
}

/// One single-digit array element followed by a comma or the closing
/// bracket: the slot loop takes the digit as one entry and stands at the
/// following token.
proof fn lemma_arr_digit_entry(s: Seq<char>, i: int, d: char, p: Position, q: Position, acc: Seq<EntryModel>)
    requires
        is_digit(d),
        0 <= i < s.len(),
        s[i] == ',' || s[i] == ']',
    ensures
        ({
            let st = PState { cur: Some((Lexeme::NumTok(seq![d]), q)), lex: LexState { i, pos: p } };
            let p1 = adv_pos(p, s[i]);
            let stn = PState {
                cur: Some(
                    (
                        if s[i] == ',' {
                            Lexeme::Comma
                        } else {
                            Lexeme::RBracket
                        },
                        p1,
                    ),
                ),
                lex: LexState { i: i + 1, pos: p1 },
            };
            sp_arr_entries(s, st, acc) == sp_arr_entries(
                s,
                stn,
                acc.push(entry_model(None, None, None, None, Some(ValueModel::Number(seq![d])), None)),
            )
        }),
{
    let st = PState { cur: Some((Lexeme::NumTok(seq![d]), q)), lex: LexState { i, pos: p } };
    let p1 = adv_pos(p, s[i]);
    assert(seq![d].len() == 1 && seq![d][0] == d);
    assert(crate::chars::digit_run_end(seq![d], 0) == 1) by {
        assert(crate::chars::digit_run_end(seq![d], 1) == 1);
    }
    assert(crate::chars::valid_number_text(seq![d]));
    assert(sp_parse_value(s, st) == Ok::<(ValueModel, PState), SyntaxErrorModel>(
        (ValueModel::Number(seq![d]), st),
    ));
    assert(sp_keep(s, st, st) == st);
    let tokn = if s[i] == ',' {
        Lexeme::Comma
    } else {
        Lexeme::RBracket
    };
    assert(spec_next_token(s, i, p) == LexOut::Tok(tokn, p1, LexState { i: i + 1, pos: p1 }));
    let stn = PState { cur: Some((tokn, p1)), lex: LexState { i: i + 1, pos: p1 } };
    let e = entry_model(None, None, None, None, Some(ValueModel::Number(seq![d])), None);
    assert(sp_arr_slot(s, st, acc, None) == sp_arr_after(s, stn, acc, None, ValueModel::Number(seq![d])));
    assert(sp_arr_after(s, stn, acc, None, ValueModel::Number(seq![d])) == sp_arr_done(
        s,
        stn,
        acc.push(e),
    ));
    assert(sp_arr_done(s, stn, acc.push(e)) == sp_arr_entries(s, stn, acc.push(e)));
}

/// Defect absorption: however many commas stand between the last element
/// and the closing bracket, fixing `[1,2,3` + commas + `]` compactly
/// yields exactly `[1,2,3]`.
#[verifier::rlimit(100)]
#[verifier::spinoff_prover]
pub proof fn lemma_defect_absorption_array(k: nat)
    ensures
        spec_fix(
            seq!['[', '1', ',', '2', ',', '3'] + char_repeat(',', k) + seq![']'],
            compact_config(),
        ) == Ok::<Seq<char>, SyntaxErrorModel>(seq!['[', '1', ',', '2', ',', '3', ']']),
{
    let a = seq!['[', '1', ',', '2', ',', '3'];
    let b = char_repeat(',', k);
    let s = a + b + seq![']'];
    lemma_char_repeat_index(',', k);
    assert(s.len() == 7 + k);
    assert(s[0] == '[' && s[1] == '1' && s[2] == ',' && s[3] == '2' && s[4] == ',' && s[5] == '3');
    assert(forall|j: int| 6 <= j < s.len() - 1 ==> s[j] == ',') by {
        assert(forall|j: int| 6 <= j < s.len() - 1 ==> s[j] == b[j - 6] && b[j - 6] == ',');
    }
    assert(s[s.len() - 1] == ']');
    let p0 = start_position();
    // the opening bracket
    let p1 = adv_pos(p0, '[');
    assert(spec_next_token(s, 0, p0) == LexOut::Tok(
        Lexeme::LBracket,
        p1,
        LexState { i: 1, pos: p1 },
    ));
    let st0 = sp_init(s);
    assert(st0 == PState { cur: Some((Lexeme::LBracket, p1)), lex: LexState { i: 1, pos: p1 } });
    // the first element's token
    let p2 = adv_pos(p1, '1');
    assert(num_run_end(s, 2) == 2);
    assert(s.subrange(2, 2) =~= Seq::<char>::empty());
    assert(seq!['1'] + s.subrange(2, 2) =~= seq!['1']);
    assert(spec_next_token(s, 1, p1) == LexOut::Tok(
        Lexeme::NumTok(seq!['1']),
        p2,
        LexState { i: 2, pos: p2 },
    ));
    let st1 = PState { cur: Some((Lexeme::NumTok(seq!['1']), p2)), lex: LexState { i: 2, pos: p2 } };
    // entries starts at the first element
    assert(sp_parse_array(s, st0) == sp_arr_entries(s, st1, Seq::empty()));
    let e1 = entry_model(None, None, None, None, Some(ValueModel::Number(seq!['1'])), None);
    let e2 = entry_model(None, None, None, None, Some(ValueModel::Number(seq!['2'])), None);
    let e3 = entry_model(None, None, None, None, Some(ValueModel::Number(seq!['3'])), None);
    lemma_arr_digit_entry(s, 2, '1', p2, p2, Seq::empty());
    let p3 = adv_pos(p2, ',');
    let st2 = PState { cur: Some((Lexeme::Comma, p3)), lex: LexState { i: 3, pos: p3 } };
    assert(sp_arr_entries(s, st1, Seq::empty()) == sp_arr_entries(s, st2, seq![e1]));
    // the comma before the second element
    let p4 = adv_pos(p3, '2');
    assert(num_run_end(s, 4) == 4);
    assert(s.subrange(4, 4) =~= Seq::<char>::empty());
    assert(seq!['2'] + s.subrange(4, 4) =~= seq!['2']);
    assert(spec_next_token(s, 3, p3) == LexOut::Tok(
        Lexeme::NumTok(seq!['2']),
        p4,
        LexState { i: 4, pos: p4 },
    ));
    let st3 = PState { cur: Some((Lexeme::NumTok(seq!['2']), p4)), lex: LexState { i: 4, pos: p4 } };
    assert(sp_arr_entries(s, st2, seq![e1]) == sp_arr_entries(s, st3, seq![e1]));
    lemma_arr_digit_entry(s, 4, '2', p4, p4, seq![e1]);
    let p5 = adv_pos(p4, ',');
    let st4 = PState { cur: Some((Lexeme::Comma, p5)), lex: LexState { i: 5, pos: p5 } };
    assert(seq![e1].push(e2) =~= seq![e1, e2]);
    assert(sp_arr_entries(s, st3, seq![e1]) == sp_arr_entries(s, st4, seq![e1, e2]));
    // the comma before the third element
    let p6 = adv_pos(p5, '3');
    assert(num_run_end(s, 6) == 6);
    assert(s.subrange(6, 6) =~= Seq::<char>::empty());
    assert(seq!['3'] + s.subrange(6, 6) =~= seq!['3']);
    assert(spec_next_token(s, 5, p5) == LexOut::Tok(
        Lexeme::NumTok(seq!['3']),
        p6,
        LexState { i: 6, pos: p6 },
    ));
    let st5 = PState { cur: Some((Lexeme::NumTok(seq!['3']), p6)), lex: LexState { i: 6, pos: p6 } };
    assert(sp_arr_entries(s, st4, seq![e1, e2]) == sp_arr_entries(s, st5, seq![e1, e2]));
    lemma_arr_digit_entry(s, 6, '3', p6, p6, seq![e1, e2]);
    let c6 = s[6];
    let p7 = adv_pos(p6, c6);
    let tok6 = if c6 == ',' {
        Lexeme::Comma
    } else {
        Lexeme::RBracket
    };
    let st6 = PState { cur: Some((tok6, p7)), lex: LexState { i: 7, pos: p7 } };
    assert(seq![e1, e2].push(e3) =~= seq![e1, e2, e3]);
    assert(sp_arr_entries(s, st5, seq![e1, e2]) == sp_arr_entries(s, st6, seq![e1, e2, e3]));
    // the commas after the last element, then the bracket
    let entries = seq![e1, e2, e3];
    let arr = ValueModel::Array(entries);
    let rfin = sp_arr_entries(s, st6, entries);
    if k == 0 {
        assert(c6 == ']');
        assert(spec_next_token(s, 7, p7) == LexOut::End);
        assert(rfin matches Ok(t) && t.0 == arr && t.1.cur is None && t.1.lex.i == s.len());
    } else {
        assert(c6 == ',');
        lemma_arr_comma_run(s, 7, p7, p7, entries);
        assert(rfin matches Ok(t) && t.0 == arr && t.1.cur is None && t.1.lex.i == s.len());
    }
    let stf = (match rfin {
        Ok(t) => t.1,
        Err(e) => st6,
    });
    // the run after the value: one more fetch at the end, then no trailing
    // tokens
    assert(spec_next_token(s, stf.lex.i, stf.lex.pos) == LexOut::End);
    assert(sp_trailing(s, stf) == Ok::<Seq<char>, SyntaxErrorModel>(Seq::empty()));
    // rendering the three-entry array compactly
    assert(sp_parse_value(s, st0) == Ok::<(ValueModel, PState), SyntaxErrorModel>((arr, stf)));
    let out = crate::jsonformatter::render_value(arr, 0, compact_config());
    assert(out =~= seq!['[', '1', ',', '2', ',', '3', ']']) by {
        lemma_render_digit_array(entries);
    }
    assert(spec_fix(s, compact_config()) == Ok::<Seq<char>, SyntaxErrorModel>(out));
}

proof fn lemma_render_digit_array(entries: Seq<EntryModel>)
    requires
        entries =~= seq![
            entry_model(None, None, None, None, Some(ValueModel::Number(seq!['1'])), None),
            entry_model(None, None, None, None, Some(ValueModel::Number(seq!['2'])), None),
            entry_model(None, None, None, None, Some(ValueModel::Number(seq!['3'])), None),
        ],
    ensures
        crate::jsonformatter::render_value(ValueModel::Array(entries), 0, compact_config())
            =~= seq!['[', '1', ',', '2', ',', '3', ']'],
{
    let cfg = compact_config();
    let e1 = entry_model(None, None, None, None, Some(ValueModel::Number(seq!['1'])), None);
    let e2 = entry_model(None, None, None, None, Some(ValueModel::Number(seq!['2'])), None);
    let e3 = entry_model(None, None, None, None, Some(ValueModel::Number(seq!['3'])), None);
    assert(entries[0] == e1 && entries[1] == e2 && entries[2] == e3);
    assert(crate::jsonformatter::any_valued(entries));
    let t3 = entries.skip(2);
    let t2 = entries.skip(1);
    let t4 = entries.skip(3);
    assert(t2.drop_first() =~= t3);
    assert(t3.drop_first() =~= t4);
    assert(entries.drop_first() =~= t2);
    assert(t4.len() == 0);
    assert(t3.first() == e3 && t2.first() == e2 && entries.first() == e1);
    assert(!cfg.spec_beautify() && !cfg.spec_space_between());
    assert(crate::jsonformatter::deeper(0) == 1);
    assert(crate::jsonformatter::render_array_items(t4, 0, cfg, true) =~= Seq::<char>::empty());
    assert(crate::jsonformatter::render_value(ValueModel::Number(seq!['1']), 1, cfg) == seq!['1']);
    assert(crate::jsonformatter::render_value(ValueModel::Number(seq!['2']), 1, cfg) == seq!['2']);
    assert(crate::jsonformatter::render_value(ValueModel::Number(seq!['3']), 1, cfg) == seq!['3']);
    assert(crate::jsonformatter::render_array_items(t3, 0, cfg, true) == (seq![','] + Seq::<
        char,
    >::empty() + Seq::<char>::empty()) + Seq::<char>::empty() + crate::jsonformatter::render_value(
        ValueModel::Number(seq!['3']),
        1,
        cfg,
    ) + crate::jsonformatter::render_array_items(t3.drop_first(), 0, cfg, true));
    assert(crate::jsonformatter::render_array_items(t3, 0, cfg, true) =~= seq![',', '3']);
    assert(crate::jsonformatter::render_array_items(t2, 0, cfg, true) == (seq![','] + Seq::<
        char,
    >::empty() + Seq::<char>::empty()) + Seq::<char>::empty() + crate::jsonformatter::render_value(
        ValueModel::Number(seq!['2']),
        1,
        cfg,
    ) + crate::jsonformatter::render_array_items(t2.drop_first(), 0, cfg, true));
    assert(crate::jsonformatter::render_array_items(t2, 0, cfg, true) =~= seq![',', '2', ',', '3']);
    assert(crate::jsonformatter::render_array_items(entries, 0, cfg, false) =~= seq![
        '1', ',', '2', ',', '3',
    ]);
}


/// Defect absorption for objects: however many commas stand between the
/// last member and the closing brace, fixing `{"a":1` + commas + `}`
/// compactly yields exactly `{"a":1}`.
#[verifier::rlimit(100)]
#[verifier::spinoff_prover]
pub proof fn lemma_defect_absorption_object(k: nat)
    ensures
        spec_fix(
            seq!['{', '"', 'a', '"', ':', '1'] + char_repeat(',', k) + seq!['}'],
            compact_config(),
        ) == Ok::<Seq<char>, SyntaxErrorModel>(seq!['{', '"', 'a', '"', ':', '1', '}']),
{
    let a = seq!['{', '"', 'a', '"', ':', '1'];
    let b = char_repeat(',', k);
    let s = a + b + seq!['}'];
    lemma_char_repeat_index(',', k);
    assert(s.len() == 7 + k);
    assert(s[0] == '{' && s[1] == '"' && s[2] == 'a' && s[3] == '"' && s[4] == ':' && s[5] == '1');
    assert(forall|j: int| 6 <= j < s.len() - 1 ==> s[j] == ',') by {
        assert(forall|j: int| 6 <= j < s.len() - 1 ==> s[j] == b[j - 6] && b[j - 6] == ',');
    }
    assert(s[s.len() - 1] == '}');
    let cfg = compact_config();
    let p0 = start_position();
    let p1 = adv_pos(p0, '{');
    assert(spec_next_token(s, 0, p0) == LexOut::Tok(Lexeme::LBrace, p1, LexState { i: 1, pos: p1 }));
    let st0 = sp_init(s);
    assert(st0 == PState { cur: Some((Lexeme::LBrace, p1)), lex: LexState { i: 1, pos: p1 } });
    // the quoted key
    let p2 = adv_pos(p1, '"');
    let p3 = adv_pos(p2, 'a');
    let p4 = adv_pos(p3, '"');
    assert(crate::json_tokenizer::scan_string(s, 3, '"', p2, p3, seq!['a']) == LexOut::Tok(
        Lexeme::StrTok(seq!['a']),
        p2,
        LexState { i: 4, pos: p4 },
    ));
    assert(Seq::<char>::empty().push('a') =~= seq!['a']);
    assert(crate::json_tokenizer::scan_string(s, 2, '"', p2, p2, Seq::empty()) == LexOut::Tok(
        Lexeme::StrTok(seq!['a']),
        p2,
        LexState { i: 4, pos: p4 },
    ));
    assert(spec_next_token(s, 1, p1) == LexOut::Tok(
        Lexeme::StrTok(seq!['a']),
        p2,
        LexState { i: 4, pos: p4 },
    ));
    let st1 = PState { cur: Some((Lexeme::StrTok(seq!['a']), p2)), lex: LexState { i: 4, pos: p4 } };
    assert(crate::jsonparser::sp_parse_object(s, st0) == crate::jsonparser::sp_obj_entries(
        s,
        st1,
        Seq::empty(),
    ));
    assert(crate::jsonparser::sp_obj_entries(s, st1, Seq::empty())
        == crate::jsonparser::sp_obj_key(s, st1, Seq::empty(), None));
    // the colon
    let p5 = adv_pos(p4, ':');
    assert(spec_next_token(s, 4, p4) == LexOut::Tok(Lexeme::Colon, p5, LexState { i: 5, pos: p5 }));
    let st2 = PState { cur: Some((Lexeme::Colon, p5)), lex: LexState { i: 5, pos: p5 } };
    assert(crate::jsonparser::sp_obj_key(s, st1, Seq::empty(), None)
        == crate::jsonparser::sp_obj_colon(s, st2, Seq::empty(), None, seq!['a']));
    assert(crate::jsonparser::sp_obj_colon(s, st2, Seq::empty(), None, seq!['a'])
        == crate::jsonparser::sp_obj_colon2(s, st2, Seq::empty(), None, seq!['a'], None));
    // the value
    let p6 = adv_pos(p5, '1');
    assert(num_run_end(s, 6) == 6);
    assert(s.subrange(6, 6) =~= Seq::<char>::empty());
    assert(seq!['1'] + s.subrange(6, 6) =~= seq!['1']);
    assert(spec_next_token(s, 5, p5) == LexOut::Tok(
        Lexeme::NumTok(seq!['1']),
        p6,
        LexState { i: 6, pos: p6 },
    ));
    let st3 = PState { cur: Some((Lexeme::NumTok(seq!['1']), p6)), lex: LexState { i: 6, pos: p6 } };
    assert(crate::jsonparser::sp_obj_colon2(s, st2, Seq::empty(), None, seq!['a'], None)
        == crate::jsonparser::sp_obj_value(s, st3, Seq::empty(), None, seq!['a'], None));
    assert(crate::jsonparser::sp_obj_value(s, st3, Seq::empty(), None, seq!['a'], None)
        == crate::jsonparser::sp_obj_value2(s, st3, Seq::empty(), None, seq!['a'], None, None));
    assert(seq!['1'].len() == 1 && seq!['1'][0] == '1');
    assert(crate::chars::digit_run_end(seq!['1'], 0) == 1) by {
        assert(crate::chars::digit_run_end(seq!['1'], 1) == 1);
    }
    assert(crate::chars::valid_number_text(seq!['1']));
    assert(sp_parse_value(s, st3) == Ok::<(ValueModel, PState), SyntaxErrorModel>(
        (ValueModel::Number(seq!['1']), st3),
    ));
    assert(sp_keep(s, st3, st3) == st3);
    let e = entry_model(None, Some(seq!['a']), None, None, Some(ValueModel::Number(seq!['1'])), None);
    assert(crate::jsonparser::sp_obj_value2(s, st3, Seq::empty(), None, seq!['a'], None, None)
        == crate::jsonparser::sp_obj_done(s, st3, Seq::empty().push(e)));
    assert(Seq::<EntryModel>::empty().push(e) =~= seq![e]);
    // the token after the value
    let c6 = s[6];
    let p7 = adv_pos(p6, c6);
    let tok6 = if c6 == ',' {
        Lexeme::Comma
    } else {
        Lexeme::RBrace
    };
    assert(spec_next_token(s, 6, p6) == LexOut::Tok(tok6, p7, LexState { i: 7, pos: p7 }));
    let st4 = PState { cur: Some((tok6, p7)), lex: LexState { i: 7, pos: p7 } };
    assert(crate::jsonparser::sp_obj_done(s, st3, seq![e]) == crate::jsonparser::sp_obj_entries(
        s,
        st4,
        seq![e],
    ));
    let obj = ValueModel::Object(seq![e]);
    let rfin = crate::jsonparser::sp_obj_entries(s, st4, seq![e]);
    if k == 0 {
        assert(c6 == '}');
        assert(spec_next_token(s, 7, p7) == LexOut::End);
        assert(rfin matches Ok(t) && t.0 == obj && t.1.cur is None && t.1.lex.i == s.len());
    } else {
        assert(c6 == ',');
        lemma_obj_comma_run(s, 7, p7, p7, seq![e]);
        assert(rfin matches Ok(t) && t.0 == obj && t.1.cur is None && t.1.lex.i == s.len());
    }
    let stf = (match rfin {
        Ok(t) => t.1,
        Err(er) => st4,
    });
    assert(spec_next_token(s, stf.lex.i, stf.lex.pos) == LexOut::End);
    assert(sp_trailing(s, stf) == Ok::<Seq<char>, SyntaxErrorModel>(Seq::empty()));
    assert(sp_parse_value(s, st0) == Ok::<(ValueModel, PState), SyntaxErrorModel>((obj, stf)));
    // rendering the single-member object compactly
    let out = crate::jsonformatter::render_value(obj, 0, cfg);
    assert(out =~= seq!['{', '"', 'a', '"', ':', '1', '}']) by {
        let rows = crate::jsonformatter::obj_rows(seq![e], 0, cfg);
        assert(seq![e].drop_first() =~= Seq::<EntryModel>::empty());
        assert(crate::jsonformatter::obj_rows(Seq::<EntryModel>::empty(), 0, cfg)
            =~= Seq::<crate::jsonformatter::RowModel>::empty());
        assert(crate::jsonformatter::deeper(0) == 1);
        assert(crate::jsonformatter::render_value(ValueModel::Number(seq!['1']), 1, cfg)
            == seq!['1']);
        let row = crate::jsonformatter::RowModel {
            has_value: true,
            key: Some(seq!['a']),
            text: seq!['1'],
        };
        assert(rows =~= seq![row]);
        assert(rows.len() == 1);
        assert(!cfg.sort_keys && !cfg.spec_beautify() && !cfg.spec_space_between());
        assert(seq![row].drop_last() =~= Seq::<crate::jsonformatter::RowModel>::empty());
        assert(crate::jsonformatter::render_obj_rows(
            Seq::<crate::jsonformatter::RowModel>::empty(),
            0,
            cfg,
        ) =~= Seq::<char>::empty());
        assert(crate::jsonformatter::obj_row_text(row, 0, cfg) =~= seq!['"', 'a', '"', ':', '1']);
        assert(crate::jsonformatter::render_obj_rows(seq![row], 0, cfg) =~= seq![
            '"', 'a', '"', ':', '1',
        ]);
    }
    assert(spec_fix(s, cfg) == Ok::<Seq<char>, SyntaxErrorModel>(out));
}


proof fn lemma_ident_run(s: Seq<char>, i: int, j: int)
    requires
        0 <= i <= j <= s.len(),
        forall|t: int| i <= t < j ==> is_ident_cont(s[t]),
        j < s.len() ==> !is_ident_cont(s[j]),
    ensures
        ident_run_end(s, i) == j,
    decreases j - i,
{
    if i < j {
        lemma_ident_run(s, i + 1, j);
    }
}

proof fn lemma_digit_run(s: Seq<char>, i: int, j: int)
    requires
        0 <= i <= j <= s.len(),
        forall|t: int| i <= t < j ==> is_digit(s[t]),
        j < s.len() ==> !is_digit(s[j]),
    ensures
        digit_run_end(s, i) == j,
    decreases j - i,
{
    if i < j {
        lemma_digit_run(s, i + 1, j);
    }
}

proof fn lemma_num_run(s: Seq<char>, i: int, j: int)
    requires
        0 <= i <= j <= s.len(),
        forall|t: int| i <= t < j ==> is_num_cont(s[t]),
        j < s.len() ==> !is_num_cont(s[j]),
    ensures
        num_run_end(s, i) == j,
    decreases j - i,
{
    if i < j {
        lemma_num_run(s, i + 1, j);
    }
}

/// An ASCII identifier character: a letter, a digit, or an underscore.
pub open spec fn ascii_ident_char(c: char) -> bool {
    ascii_alnum(c) || c == '_'
}

/// Key normalization: for any nonempty ASCII identifier-shaped key that is
/// not a keyword, and any nonempty digit-run value, fixing `{` + key + `:`
/// + value + `}` compactly yields the double-quoted key and the unchanged
/// value joined with no spaces.
#[verifier::rlimit(100)]
#[verifier::spinoff_prover]
pub proof fn lemma_key_normalization(k: Seq<char>, v: Seq<char>)
    requires
        k.len() > 0,
        is_ident_start(k[0]),
        forall|t: int| 0 <= t < k.len() ==> ascii_ident_char(#[trigger] k[t]),
        k != seq!['t', 'r', 'u', 'e'],
        k != seq!['f', 'a', 'l', 's', 'e'],
        k != seq!['n', 'u', 'l', 'l'],
        v.len() > 0,
        all_digits(v),
    ensures
        spec_fix(seq!['{'] + k + seq![':'] + v + seq!['}'], compact_config()) == Ok::<
            Seq<char>,
            SyntaxErrorModel,
        >(seq!['{', '"'] + k + seq!['"', ':'] + v + seq!['}']),
{
    let s = seq!['{'] + k + seq![':'] + v + seq!['}'];
    let kl = k.len() as int;
    let vl = v.len() as int;
    assert(s.len() == 3 + kl + vl);
    assert(s[0] == '{');
    assert(forall|t: int| 0 <= t < kl ==> s[1 + t] == k[t]);
    assert(s[1 + kl] == ':');
    assert(forall|t: int| 0 <= t < vl ==> s[2 + kl + t] == v[t]);
    assert(s[2 + kl + vl] == '}');
    let cfg = compact_config();
    let p0 = start_position();
    let p1 = adv_pos(p0, '{');
    assert(spec_next_token(s, 0, p0) == LexOut::Tok(Lexeme::LBrace, p1, LexState { i: 1, pos: p1 }));
    let st0 = sp_init(s);
    assert(st0 == PState { cur: Some((Lexeme::LBrace, p1)), lex: LexState { i: 1, pos: p1 } });
    // the identifier key
    assert(forall|t: int| 2 <= t < 1 + kl ==> is_ident_cont(#[trigger] s[t])) by {
        assert(forall|t: int| 2 <= t < 1 + kl ==> s[t] == k[t - 1] && ascii_ident_char(k[t - 1]));
    }
    assert(!is_ident_cont(':'));
    lemma_ident_run(s, 2, 1 + kl);
    assert(s.subrange(1, 1 + kl) =~= k);
    let p2 = adv_pos(p1, s[1]);
    assert(is_ident_start(s[1]) && !crate::chars::is_ws(s[1]) && !crate::chars::is_num_start(s[1]));
    let lexk = crate::json_tokenizer::lex_ident(s, 1, p2);
    let pk = crate::json_tokenizer::adv_pos_over(p2, s.subrange(2, 1 + kl));
    assert(lexk == LexOut::Tok(Lexeme::IdentTok(k), p2, LexState { i: 1 + kl, pos: pk }));
    assert(spec_next_token(s, 1, p1) == lexk);
    let st1 = PState { cur: Some((Lexeme::IdentTok(k), p2)), lex: LexState { i: 1 + kl, pos: pk } };
    assert(crate::jsonparser::sp_parse_object(s, st0) == crate::jsonparser::sp_obj_entries(
        s,
        st1,
        Seq::empty(),
    ));
    assert(!(st1.cur matches Some((Lexeme::WsTok(w), p))));
    assert(crate::jsonparser::sp_obj_entries(s, st1, Seq::empty())
        == crate::jsonparser::sp_obj_key(s, st1, Seq::empty(), None));
    // the colon
    let p3 = adv_pos(pk, ':');
    assert(spec_next_token(s, 1 + kl, pk) == LexOut::Tok(
        Lexeme::Colon,
        p3,
        LexState { i: 2 + kl, pos: p3 },
    ));
    let st2 = PState { cur: Some((Lexeme::Colon, p3)), lex: LexState { i: 2 + kl, pos: p3 } };
    assert(crate::jsonparser::sp_obj_key(s, st1, Seq::empty(), None)
        == crate::jsonparser::sp_obj_colon(s, st2, Seq::empty(), None, k));
    assert(crate::jsonparser::sp_obj_colon(s, st2, Seq::empty(), None, k)
        == crate::jsonparser::sp_obj_colon2(s, st2, Seq::empty(), None, k, None));
    // the digit-run value
    assert(forall|t: int| 3 + kl <= t < 2 + kl + vl ==> is_num_cont(#[trigger] s[t])) by {
        assert(forall|t: int| 3 + kl <= t < 2 + kl + vl ==> s[t] == v[t - 2 - kl] && is_digit(
            v[t - 2 - kl],
        ));
    }
    assert(!is_num_cont('}'));
    lemma_num_run(s, 3 + kl, 2 + kl + vl);
    let p4 = adv_pos(p3, v[0]);
    assert(s[2 + kl] == v[0] && is_digit(v[0]));
    assert(!crate::chars::is_ws(v[0]) && crate::chars::is_num_start(v[0]));
    assert(s.subrange(3 + kl, 2 + kl + vl) =~= v.skip(1));
    assert(seq![v[0]] + v.skip(1) =~= v);
    let pv = crate::json_tokenizer::adv_pos_over(p4, s.subrange(3 + kl, 2 + kl + vl));
    assert(v.last() == v[vl - 1] && is_digit(v.last()) && v.last() != '.');
    assert(spec_next_token(s, 2 + kl, p3) == LexOut::Tok(
        Lexeme::NumTok(v),
        pv,
        LexState { i: 2 + kl + vl, pos: pv },
    ));
    let st3 = PState {
        cur: Some((Lexeme::NumTok(v), pv)),
        lex: LexState { i: 2 + kl + vl, pos: pv },
    };
    assert(crate::jsonparser::sp_obj_colon2(s, st2, Seq::empty(), None, k, None)
        == crate::jsonparser::sp_obj_value(s, st3, Seq::empty(), None, k, None));
    assert(crate::jsonparser::sp_obj_value(s, st3, Seq::empty(), None, k, None)
        == crate::jsonparser::sp_obj_value2(s, st3, Seq::empty(), None, k, None, None));
    // the value parses as the unchanged number text
    lemma_digit_run(v, 0, vl);
    assert(valid_number_text(v));
    assert(sp_parse_value(s, st3) == Ok::<(ValueModel, PState), SyntaxErrorModel>(
        (ValueModel::Number(v), st3),
    ));
    assert(sp_keep(s, st3, st3) == st3);
    let e = entry_model(None, Some(k), None, None, Some(ValueModel::Number(v)), None);
    assert(crate::jsonparser::sp_obj_value2(s, st3, Seq::empty(), None, k, None, None)
        == crate::jsonparser::sp_obj_done(s, st3, Seq::empty().push(e)));
    assert(Seq::<EntryModel>::empty().push(e) =~= seq![e]);
    // the closing brace
    let p5 = adv_pos(pv, '}');
    assert(spec_next_token(s, 2 + kl + vl, pv) == LexOut::Tok(
        Lexeme::RBrace,
        p5,
        LexState { i: 3 + kl + vl, pos: p5 },
    ));
    let st4 = PState { cur: Some((Lexeme::RBrace, p5)), lex: LexState { i: 3 + kl + vl, pos: p5 } };
    assert(crate::jsonparser::sp_obj_done(s, st3, seq![e]) == crate::jsonparser::sp_obj_entries(
        s,
        st4,
        seq![e],
    ));
    assert(spec_next_token(s, 3 + kl + vl, p5) == LexOut::End);
    let stf = PState { cur: None, lex: LexState { i: 3 + kl + vl, pos: p5 } };
    let obj = ValueModel::Object(seq![e]);
    assert(crate::jsonparser::sp_obj_entries(s, st4, seq![e]) == Ok::<
        (ValueModel, PState),
        SyntaxErrorModel,
    >((obj, stf)));
    assert(sp_parse_value(s, st0) == Ok::<(ValueModel, PState), SyntaxErrorModel>((obj, stf)));
    assert(sp_trailing(s, stf) == Ok::<Seq<char>, SyntaxErrorModel>(Seq::empty()));
    // rendering: the quoted key and the verbatim value, with no spaces
    let out = crate::jsonformatter::render_value(obj, 0, cfg);
    assert(out =~= seq!['{', '"'] + k + seq!['"', ':'] + v + seq!['}']) by {
        assert(seq![e].drop_first() =~= Seq::<EntryModel>::empty());
        assert(crate::jsonformatter::obj_rows(Seq::<EntryModel>::empty(), 0, cfg)
            =~= Seq::<crate::jsonformatter::RowModel>::empty());
        assert(crate::jsonformatter::render_value(ValueModel::Number(v), 1, cfg) == v);
        assert(crate::jsonformatter::deeper(0) == 1);
        let row = crate::jsonformatter::RowModel { has_value: true, key: Some(k), text: v };
        let rows = crate::jsonformatter::obj_rows(seq![e], 0, cfg);
        assert(rows =~= seq![row]);
        assert(!cfg.sort_keys && !cfg.spec_beautify() && !cfg.spec_space_between());
        assert(seq![row].drop_last() =~= Seq::<crate::jsonformatter::RowModel>::empty());
        assert(crate::jsonformatter::render_obj_rows(
            Seq::<crate::jsonformatter::RowModel>::empty(),
            0,
            cfg,
        ) =~= Seq::<char>::empty());
        assert(crate::jsonformatter::obj_row_text(row, 0, cfg) =~= seq!['"'] + k + seq!['"', ':']
            + v);
        assert(crate::jsonformatter::render_obj_rows(seq![row], 0, cfg) =~= seq!['"'] + k + seq![
            '"', ':',
        ] + v);
    }
    assert(spec_fix(s, cfg) == Ok::<Seq<char>, SyntaxErrorModel>(out));
}


proof fn lemma_scan_plain(s: Seq<char>, i: int, j: int, quote: char, start: Position, p: Position, acc: Seq<char>)
    requires
        0 <= i <= j < s.len(),
        forall|t: int| i <= t < j ==> s[t] != quote && #[trigger] s[t] != '\\',
        s[j] == quote,
    ensures
        scan_string(s, i, quote, start, p, acc) == LexOut::Tok(
            Lexeme::StrTok(acc + s.subrange(i, j)),
            start,
            LexState { i: j + 1, pos: adv_pos_over(p, s.subrange(i, j + 1)) },
        ),
    decreases j - i,
{
    if i == j {
        assert(s.subrange(i, j) =~= Seq::<char>::empty());
        assert(acc + s.subrange(i, j) =~= acc);
        assert(s.subrange(i, i + 1) =~= seq![s[i]]);
        assert(seq![s[i]].skip(1) =~= Seq::<char>::empty());
        assert(adv_pos_over(adv_pos(p, s[i]), Seq::<char>::empty()) == adv_pos(p, s[i]));
        assert(adv_pos_over(p, seq![s[i]]) == adv_pos(p, s[i]));
    } else {
        let c = s[i];
        let p1 = adv_pos(p, c);
        lemma_scan_plain(s, i + 1, j, quote, start, p1, acc.push(c));
        assert(acc.push(c) + s.subrange(i + 1, j) =~= acc + s.subrange(i, j));
        assert(s.subrange(i, j + 1)[0] == c);
        assert(s.subrange(i, j + 1).skip(1) =~= s.subrange(i + 1, j + 1));
        assert(adv_pos_over(p, s.subrange(i, j + 1)) == adv_pos_over(p1, s.subrange(i + 1, j + 1)));
    }
}

/// The text `{` + quote + key + quote + `:` + value + `}`.
pub open spec fn quoted_pair_text(q: char, k: Seq<char>, v: Seq<char>) -> Seq<char> {
    seq!['{', q] + k + seq![q, ':'] + v + seq!['}']
}

/// Key normalization for quoted keys: for any single- or double-quoted
/// key whose text holds neither its own quote nor a backslash, and any
/// nonempty digit-run value, fixing `{` + quote + key + quote + `:` +
/// value + `}` compactly yields the double-quoted key and the unchanged
/// value, joined with no spaces.
#[verifier::rlimit(100)]
#[verifier::spinoff_prover]
pub proof fn lemma_key_normalization_quoted(q: char, k: Seq<char>, v: Seq<char>)
    requires
        (q as u32 == 39 || q as u32 == 34),
        forall|t: int| 0 <= t < k.len() ==> #[trigger] k[t] != q && k[t] != '\\',
        v.len() > 0,
        all_digits(v),
    ensures
        spec_fix(quoted_pair_text(q, k, v), compact_config()) == Ok::<
            Seq<char>,
            SyntaxErrorModel,
        >(seq!['{', '"'] + k + seq!['"', ':'] + v + seq!['}']),
{
    if q as u32 == 39 {
        vstd::utf8::char_u32_cast(q, 39);
        vstd::utf8::char_u32_cast('\'', 39);
    } else {
        vstd::utf8::char_u32_cast(q, 34);
        vstd::utf8::char_u32_cast('"', 34);
    }
    assert(q == '\'' || q == '"');
    assert(!crate::chars::is_ws(q));
    assert(q != '{' && q != '}' && q != '[' && q != ']' && q != ':' && q != ',');
    let s = quoted_pair_text(q, k, v);
    let kl = k.len() as int;
    let vl = v.len() as int;
    assert(s.len() == 5 + kl + vl);
    assert(s[0] == '{');
    assert(s[1] == q);
    assert(forall|t: int| 0 <= t < kl ==> s[2 + t] == k[t]);
    assert(s[2 + kl] == q);
    assert(s[3 + kl] == ':');
    assert(forall|t: int| 0 <= t < vl ==> s[4 + kl + t] == v[t]);
    assert(s[4 + kl + vl] == '}');
    let cfg = compact_config();
    let p0 = start_position();
    let p1 = adv_pos(p0, '{');
    assert(spec_next_token(s, 0, p0) == LexOut::Tok(Lexeme::LBrace, p1, LexState { i: 1, pos: p1 }));
    let st0 = sp_init(s);
    assert(st0 == PState { cur: Some((Lexeme::LBrace, p1)), lex: LexState { i: 1, pos: p1 } });
    // the quoted key
    let p2 = adv_pos(p1, q);
    assert(forall|t: int| 2 <= t < 2 + kl ==> #[trigger] s[t] != q && s[t] != '\\') by {
        assert(forall|t: int| 2 <= t < 2 + kl ==> s[t] == k[t - 2]);
    }
    lemma_scan_plain(s, 2, 2 + kl, q, p2, p2, Seq::empty());
    assert(s.subrange(2, 2 + kl) =~= k);
    assert(Seq::<char>::empty() + s.subrange(2, 2 + kl) =~= k);
    let pk = adv_pos_over(p2, s.subrange(2, 3 + kl));
    assert(spec_next_token(s, 1, p1) == LexOut::Tok(
        Lexeme::StrTok(k),
        p2,
        LexState { i: 3 + kl, pos: pk },
    ));
    let st1 = PState { cur: Some((Lexeme::StrTok(k), p2)), lex: LexState { i: 3 + kl, pos: pk } };
    assert(crate::jsonparser::sp_parse_object(s, st0) == crate::jsonparser::sp_obj_entries(
        s,
        st1,
        Seq::empty(),
    ));
    assert(crate::jsonparser::sp_obj_entries(s, st1, Seq::empty())
        == crate::jsonparser::sp_obj_key(s, st1, Seq::empty(), None));
    // the colon
    let p3 = adv_pos(pk, ':');
    assert(spec_next_token(s, 3 + kl, pk) == LexOut::Tok(
        Lexeme::Colon,
        p3,
        LexState { i: 4 + kl, pos: p3 },
    ));
    let st2 = PState { cur: Some((Lexeme::Colon, p3)), lex: LexState { i: 4 + kl, pos: p3 } };
    assert(crate::jsonparser::sp_obj_key(s, st1, Seq::empty(), None)
        == crate::jsonparser::sp_obj_colon(s, st2, Seq::empty(), None, k));
    assert(crate::jsonparser::sp_obj_colon(s, st2, Seq::empty(), None, k)
        == crate::jsonparser::sp_obj_colon2(s, st2, Seq::empty(), None, k, None));
    // the digit-run value
    assert(forall|t: int| 5 + kl <= t < 4 + kl + vl ==> is_num_cont(#[trigger] s[t])) by {
        assert(forall|t: int| 5 + kl <= t < 4 + kl + vl ==> s[t] == v[t - 4 - kl] && is_digit(
            v[t - 4 - kl],
        ));
    }
    assert(!is_num_cont('}'));
    lemma_num_run(s, 5 + kl, 4 + kl + vl);
    let p4 = adv_pos(p3, v[0]);
    assert(s[4 + kl] == v[0] && is_digit(v[0]));
    assert(!crate::chars::is_ws(v[0]) && crate::chars::is_num_start(v[0]));
    assert(s.subrange(5 + kl, 4 + kl + vl) =~= v.skip(1));
    assert(seq![v[0]] + v.skip(1) =~= v);
    let pv = adv_pos_over(p4, s.subrange(5 + kl, 4 + kl + vl));
    assert(v.last() == v[vl - 1] && is_digit(v.last()) && v.last() != '.');
    assert(spec_next_token(s, 4 + kl, p3) == LexOut::Tok(
        Lexeme::NumTok(v),
        pv,
        LexState { i: 4 + kl + vl, pos: pv },
    ));
    let st3 = PState {
        cur: Some((Lexeme::NumTok(v), pv)),
        lex: LexState { i: 4 + kl + vl, pos: pv },
    };
    assert(crate::jsonparser::sp_obj_colon2(s, st2, Seq::empty(), None, k, None)
        == crate::jsonparser::sp_obj_value(s, st3, Seq::empty(), None, k, None));
    assert(crate::jsonparser::sp_obj_value(s, st3, Seq::empty(), None, k, None)
        == crate::jsonparser::sp_obj_value2(s, st3, Seq::empty(), None, k, None, None));
    lemma_digit_run(v, 0, vl);
    assert(valid_number_text(v));
    assert(sp_parse_value(s, st3) == Ok::<(ValueModel, PState), SyntaxErrorModel>(
        (ValueModel::Number(v), st3),
    ));
    assert(sp_keep(s, st3, st3) == st3);
    let e = entry_model(None, Some(k), None, None, Some(ValueModel::Number(v)), None);
    assert(crate::jsonparser::sp_obj_value2(s, st3, Seq::empty(), None, k, None, None)
        == crate::jsonparser::sp_obj_done(s, st3, Seq::empty().push(e)));
    assert(Seq::<EntryModel>::empty().push(e) =~= seq![e]);
    // the closing brace
    let p5 = adv_pos(pv, '}');
    assert(spec_next_token(s, 4 + kl + vl, pv) == LexOut::Tok(
        Lexeme::RBrace,
        p5,
        LexState { i: 5 + kl + vl, pos: p5 },
    ));
    let st4 = PState { cur: Some((Lexeme::RBrace, p5)), lex: LexState { i: 5 + kl + vl, pos: p5 } };
    assert(crate::jsonparser::sp_obj_done(s, st3, seq![e]) == crate::jsonparser::sp_obj_entries(
        s,
        st4,
        seq![e],
    ));
    assert(spec_next_token(s, 5 + kl + vl, p5) == LexOut::End);
    let stf = PState { cur: None, lex: LexState { i: 5 + kl + vl, pos: p5 } };
    let obj = ValueModel::Object(seq![e]);
    assert(crate::jsonparser::sp_obj_entries(s, st4, seq![e]) == Ok::<
        (ValueModel, PState),
        SyntaxErrorModel,
    >((obj, stf)));
    assert(sp_parse_value(s, st0) == Ok::<(ValueModel, PState), SyntaxErrorModel>((obj, stf)));
    assert(sp_trailing(s, stf) == Ok::<Seq<char>, SyntaxErrorModel>(Seq::empty()));
    // rendering: the double-quoted key and the verbatim value
    let out = crate::jsonformatter::render_value(obj, 0, cfg);
    assert(out =~= seq!['{', '"'] + k + seq!['"', ':'] + v + seq!['}']) by {
        assert(seq![e].drop_first() =~= Seq::<EntryModel>::empty());
        assert(crate::jsonformatter::obj_rows(Seq::<EntryModel>::empty(), 0, cfg)
            =~= Seq::<crate::jsonformatter::RowModel>::empty());
        assert(crate::jsonformatter::render_value(ValueModel::Number(v), 1, cfg) == v);
        assert(crate::jsonformatter::deeper(0) == 1);
        let row = crate::jsonformatter::RowModel { has_value: true, key: Some(k), text: v };
        let rows = crate::jsonformatter::obj_rows(seq![e], 0, cfg);
        assert(rows =~= seq![row]);
        assert(!cfg.sort_keys && !cfg.spec_beautify() && !cfg.spec_space_between());
        assert(seq![row].drop_last() =~= Seq::<crate::jsonformatter::RowModel>::empty());
        assert(crate::jsonformatter::render_obj_rows(
            Seq::<crate::jsonformatter::RowModel>::empty(),
            0,
            cfg,
        ) =~= Seq::<char>::empty());
        assert(crate::jsonformatter::obj_row_text(row, 0, cfg) =~= seq!['"'] + k + seq!['"', ':']
            + v);
        assert(crate::jsonformatter::render_obj_rows(seq![row], 0, cfg) =~= seq!['"'] + k + seq![
            '"', ':',
        ] + v);
    }
    assert(spec_fix(s, cfg) == Ok::<Seq<char>, SyntaxErrorModel>(out));
}

/// Idempotence on a family of strict inputs: a compact single-pair object
/// with a double-quoted ASCII identifier key and a digit-run value is a
/// fixed point of compact fixing, so fixing it twice equals fixing it
/// once.  (The unrestricted statement over all strict inputs does not
/// hold: a string whose content holds a lone backslash is re-read as an
/// escape on the second pass.)
pub proof fn lemma_fixed_point_pair(k: Seq<char>, v: Seq<char>)
    requires
        k.len() > 0,
        forall|t: int| 0 <= t < k.len() ==> ascii_ident_char(#[trigger] k[t]),
        v.len() > 0,
        all_digits(v),
    ensures
        spec_fix(seq!['{', '"'] + k + seq!['"', ':'] + v + seq!['}'], compact_config()) == Ok::<
            Seq<char>,
            SyntaxErrorModel,
        >(seq!['{', '"'] + k + seq!['"', ':'] + v + seq!['}']),
{
    assert(forall|t: int| 0 <= t < k.len() ==> #[trigger] k[t] != '"' && k[t] != '\\') by {
        assert(forall|t: int| 0 <= t < k.len() ==> ascii_ident_char(#[trigger] k[t]));
    }
    lemma_key_normalization_quoted('"', k, v);
}


/// Number round-trip, the scanning side: any numeric text that begins
/// with a minus sign or a digit and does not end in a decimal point — in
/// particular any strict-JSON number such as `1e5` or `-1.23e+4` — comes
/// out of the number scanner as one token holding exactly that text.
pub proof fn lemma_number_token_verbatim(s: Seq<char>, i: int, j: int, p1: Position)
    requires
        0 <= i < j <= s.len(),
        s[i] == '-' || is_digit(s[i]),
        forall|t: int| i < t < j ==> is_num_cont(#[trigger] s[t]),
        j < s.len() ==> !is_num_cont(s[j]),
        s[j - 1] != '.',
    ensures
        ({
            let text = s.subrange(i, j);
            lex_number(s, i, p1) matches LexOut::Tok(lx, tp, l2) && lx == Lexeme::NumTok(text)
                && l2.i == j
        }),
{
    let c = s[i];
    lemma_num_run(s, i + 1, j);
    let text = s.subrange(i, j);
    assert(seq![c] + s.subrange(i + 1, j) =~= text);
    assert(text.last() == s[j - 1]);
}

/// Sort-keys with pretty-printing, the indentation side: with a space
/// indentation unit, the indentation at a depth is exactly
/// `indent_size * depth` spaces; each beautified pair begins, after its
/// newline, with the indentation of its depth (visible in
/// `obj_row_text`).
pub proof fn lemma_indent_spaces_width(cfg: JsonFixerConfig, depth: usize)
    requires
        cfg.indent_style is Spaces,
    ensures
        indent_text(cfg, depth) == char_repeat(' ', (cfg.indent_size * depth) as nat),
{
    lemma_seq_repeat_spaces(cfg.indent_size as nat, depth as nat);
}

proof fn lemma_seq_repeat_spaces(n: nat, d: nat)
    ensures
        seq_repeat(char_repeat(' ', n), d) == char_repeat(' ', n * d),
    decreases d,
{
    if d == 0 {
        assert(seq_repeat(char_repeat(' ', n), 0) =~= char_repeat(' ', 0));
    } else {
        lemma_seq_repeat_spaces(n, (d - 1) as nat);
        lemma_char_repeat_add(n * (d - 1) as nat, n);
        assert(n * d == n * (d - 1) + n) by (nonlinear_arith);
    }
}

proof fn lemma_char_repeat_add(a: nat, b: nat)
    ensures
        char_repeat(' ', a) + char_repeat(' ', b) == char_repeat(' ', a + b),
    decreases b,
{
    if b == 0 {
        assert(char_repeat(' ', a) + char_repeat(' ', 0) =~= char_repeat(' ', a));
    } else {
        lemma_char_repeat_add(a, (b - 1) as nat);
        assert(char_repeat(' ', a) + char_repeat(' ', b) =~= (char_repeat(' ', a) + char_repeat(
            ' ',
            (b - 1) as nat,
        )).push(' '));
    }
}


/// Sort-keys with pretty-printing, the layout side: under beautify each
/// rendered pair stands after a comma and a newline, and its text begins
/// with the indentation of its depth — so every pair sits on its own
/// indented line.
pub proof fn lemma_beautified_pair_layout(rows: Seq<RowModel>, depth: usize, cfg: JsonFixerConfig)
    requires
        cfg.spec_beautify(),
        !cfg.spec_space_between(),
        rows.len() > 0,
    ensures
        render_obj_rows(rows, depth, cfg) == (if rows.len() > 1 {
            render_obj_rows(rows.drop_last(), depth, cfg) + seq![',', '\n']
        } else {
            Seq::empty()
        }) + indent_text(cfg, deeper(depth)) + seq!['"'] + key_or_empty(rows.last().key) + seq![
            '"',
            ':',
            ' ',
        ] + rows.last().text,
{
    assert(obj_row_text(rows.last(), depth, cfg) =~= indent_text(cfg, deeper(depth)) + seq!['"']
        + key_or_empty(rows.last().key) + seq!['"', ':', ' '] + rows.last().text);
    if rows.len() > 1 {
        assert(render_obj_rows(rows, depth, cfg) =~= render_obj_rows(rows.drop_last(), depth, cfg)
            + seq![',', '\n'] + obj_row_text(rows.last(), depth, cfg));
        assert(render_obj_rows(rows, depth, cfg) =~= (render_obj_rows(
            rows.drop_last(),
            depth,
            cfg,
        ) + seq![',', '\n']) + indent_text(cfg, deeper(depth)) + seq!['"'] + key_or_empty(
            rows.last().key,
        ) + seq!['"', ':', ' '] + rows.last().text);
    } else {
        assert(render_obj_rows(rows, depth, cfg) =~= Seq::<char>::empty() + indent_text(
            cfg,
            deeper(depth),
        ) + seq!['"'] + key_or_empty(rows.last().key) + seq!['"', ':', ' '] + rows.last().text);
    }
}

} // verus!
