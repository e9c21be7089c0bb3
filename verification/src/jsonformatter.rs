//! The multi-mode formatter: renders a document model back to text in one
//! of four strategies — compact, space-padded, pretty-printed, or layout-
//! preserving — driven by the configuration.
//!
//! The spec functions state the output exactly: the executable formatter
//! is proved to emit precisely the text `render_value` describes.

use vstd::prelude::*;

use crate::chars::chars_lt;
use crate::chars::chars_to_string;
use crate::chars::is_whitespace_char;
use crate::chars::is_ws;
use crate::chars::lex_lt;
use crate::chars::str_to_chars;
pub use crate::jsonfixer_config::IndentStyle;
use crate::jsonfixer_config::JsonFixerConfig;
use crate::jsonfixer_error::JsonFixerError;
use crate::jsonparser::EntryModel;
use crate::jsonparser::JsonEntryValue;
use crate::jsonparser::JsonValue;
use crate::jsonparser::ValueModel;
use crate::jsonparser::view_entries;
use crate::jsonparser::view_entry;
use crate::jsonparser::view_value;
use crate::jsonparser::lemma_view_entries_index;

verus! {

/// A saturating increment for the nesting depth; depth drives only the
/// indentation count.
pub open spec fn deeper(d: usize) -> usize {
    if d == usize::MAX {
        d
    } else {
        (d + 1) as usize
    }
}

pub open spec fn char_repeat(c: char, n: nat) -> Seq<char>
    decreases n,
{
    if n == 0 {
        Seq::empty()
    } else {
        char_repeat(c, (n - 1) as nat).push(c)
    }
}

/// The indentation unit: `indent_size` spaces, or one tab.
pub open spec fn indent_unit(style: IndentStyle, size: nat) -> Seq<char> {
    match style {
        IndentStyle::Spaces => char_repeat(' ', size),
        IndentStyle::Tabs => seq!['\t'],
    }
}

pub open spec fn seq_repeat(s: Seq<char>, n: nat) -> Seq<char>
    decreases n,
{
    if n == 0 {
        Seq::empty()
    } else {
        seq_repeat(s, (n - 1) as nat) + s
    }
}

/// The indentation for one nesting depth.
pub open spec fn indent_text(cfg: JsonFixerConfig, depth: usize) -> Seq<char> {
    seq_repeat(indent_unit(cfg.indent_style, cfg.indent_size as nat), depth as nat)
}

pub open spec fn key_or_empty(k: Option<Seq<char>>) -> Seq<char> {
    match k {
        Some(s) => s,
        None => Seq::empty(),
    }
}

/// The order in which keys are sorted.  In preserve mode a missing key
/// counts as empty text; otherwise a missing key orders before any
/// present key, as an optional value compares.
pub open spec fn row_key_lt(pres: bool, a: Option<Seq<char>>, b: Option<Seq<char>>) -> bool {
    if pres {
        lex_lt(key_or_empty(a), key_or_empty(b))
    } else {
        match (a, b) {
            (None, None) => false,
            (None, Some(_)) => true,
            (Some(_), None) => false,
            (Some(x), Some(y)) => lex_lt(x, y),
        }
    }
}

/// One rendered object entry: whether it carries a value, its key, and
/// its rendered text.
#[verifier::ext_equal]
pub struct RowModel {
    pub has_value: bool,
    pub key: Option<Seq<char>>,
    pub text: Seq<char>,
}

/// Stable insertion of a row into a key-sorted row sequence: the new row
/// goes after every row whose key is not greater.
pub open spec fn insert_row(pres: bool, sorted: Seq<RowModel>, x: RowModel) -> Seq<RowModel>
    decreases sorted.len(),
{
    if sorted.len() > 0 && row_key_lt(pres, x.key, sorted.last().key) {
        insert_row(pres, sorted.drop_last(), x).push(sorted.last())
    } else {
        sorted.push(x)
    }
}

/// Stable insertion sort of rows by key.
pub open spec fn sort_rows(pres: bool, rows: Seq<RowModel>) -> Seq<RowModel>
    decreases rows.len(),
{
    if rows.len() == 0 {
        Seq::empty()
    } else {
        insert_row(pres, sort_rows(pres, rows.drop_last()), rows.last())
    }
}

/// The largest index of a non-whitespace character, or -1 when there is
/// none.
pub open spec fn last_non_ws(s: Seq<char>) -> int
    decreases s.len(),
{
    if s.len() == 0 {
        -1
    } else if !is_ws(s.last()) {
        s.len() - 1
    } else {
        last_non_ws(s.drop_last())
    }
}

/// Removes the trailing comma a preserve-mode object body may end with:
/// when the last non-whitespace character is a comma, it is dropped.
pub open spec fn strip_last_comma(s: Seq<char>) -> Seq<char> {
    let k = last_non_ws(s);
    if k >= 0 && s[k] == ',' {
        s.remove(k)
    } else {
        s
    }
}

/// Whether any entry carries a value.
pub open spec fn any_valued(es: Seq<EntryModel>) -> bool {
    exists|i: int| 0 <= i < es.len() && es[i].value is Some
}

pub open spec fn opt_or_empty(o: Option<Seq<char>>) -> Seq<char> {
    match o {
        Some(s) => s,
        None => Seq::empty(),
    }
}

/// The rendering of one document value at a nesting depth under a
/// configuration.
pub open spec fn render_value(v: ValueModel, depth: usize, cfg: JsonFixerConfig) -> Seq<char>
    decreases v, 2int,
{
    match v {
        ValueModel::Null => seq!['n', 'u', 'l', 'l'],
        ValueModel::Boolean(b) => if b {
            seq!['t', 'r', 'u', 'e']
        } else {
            seq!['f', 'a', 'l', 's', 'e']
        },
        ValueModel::Number(n) => n,
        ValueModel::String(s) => seq!['"'] + s + seq!['"'],
        ValueModel::Space(sp) => sp,
        ValueModel::Array(es) => if cfg.spec_preserve() {
            render_array_preserved(es, depth, cfg)
        } else {
            render_array(es, depth, cfg)
        },
        ValueModel::Object(es) => if cfg.spec_preserve() {
            render_object_preserved(es, depth, cfg)
        } else {
            render_object(es, depth, cfg)
        },
    }
}

/// A compact, padded or pretty array: defect entries vanish, separators
/// come from the configuration alone.
pub open spec fn render_array(es: Seq<EntryModel>, depth: usize, cfg: JsonFixerConfig) -> Seq<
    char,
>
    decreases es, 1int,
{
    if !any_valued(es) {
        seq!['[', ']']
    } else {
        seq!['['] + (if cfg.spec_beautify() {
            seq!['\n']
        } else {
            Seq::empty()
        }) + (if cfg.spec_space_between() {
            seq![' ']
        } else {
            Seq::empty()
        }) + render_array_items(es, depth, cfg, false) + (if cfg.spec_beautify() {
            seq!['\n'] + indent_text(cfg, depth)
        } else {
            Seq::empty()
        }) + (if cfg.spec_space_between() {
            seq![' ']
        } else {
            Seq::empty()
        }) + seq![']']
    }
}

/// The comma-separated items of a non-preserve array; `first_done` says
/// whether an item has already been rendered.
pub open spec fn render_array_items(
    es: Seq<EntryModel>,
    depth: usize,
    cfg: JsonFixerConfig,
    first_done: bool,
) -> Seq<char>
    decreases es, 0int,
{
    if es.len() == 0 {
        Seq::empty()
    } else {
        match es.first().value {
            Some(v) => (if first_done {
                seq![','] + (if cfg.spec_beautify() {
                    seq!['\n']
                } else {
                    Seq::empty()
                }) + (if cfg.spec_space_between() {
                    seq![' ']
                } else {
                    Seq::empty()
                })
            } else {
                Seq::empty()
            }) + (if cfg.spec_beautify() {
                indent_text(cfg, deeper(depth))
            } else {
                Seq::empty()
            }) + render_value(v, deeper(depth), cfg) + render_array_items(
                es.drop_first(),
                depth,
                cfg,
                true,
            ),
            None => render_array_items(es.drop_first(), depth, cfg, first_done),
        }
    }
}

/// A preserve-mode array: captured whitespace is replayed verbatim, and a
/// comma stands before every valued entry but the one in first position.
pub open spec fn render_array_preserved(
    es: Seq<EntryModel>,
    depth: usize,
    cfg: JsonFixerConfig,
) -> Seq<char>
    decreases es, 1int,
{
    if es.len() == 0 {
        seq!['[', ']']
    } else {
        seq!['['] + render_array_pres_items(es, depth, cfg, true) + seq![']']
    }
}

pub open spec fn render_array_pres_items(
    es: Seq<EntryModel>,
    depth: usize,
    cfg: JsonFixerConfig,
    first: bool,
) -> Seq<char>
    decreases es, 0int,
{
    if es.len() == 0 {
        Seq::empty()
    } else {
        let e = es.first();
        (if !first && e.value is Some {
            seq![',']
        } else {
            Seq::empty()
        }) + opt_or_empty(e.space_bf_val) + (match e.value {
            Some(v) => render_value(v, deeper(depth), cfg),
            None => Seq::empty(),
        }) + opt_or_empty(e.space_af_val) + render_array_pres_items(
            es.drop_first(),
            depth,
            cfg,
            false,
        )
    }
}

/// The rendered rows of a non-preserve object: one per valued entry, in
/// source order, each carrying its key and its rendered value text.
pub open spec fn obj_rows(es: Seq<EntryModel>, depth: usize, cfg: JsonFixerConfig) -> Seq<
    RowModel,
>
    decreases es, 1int,
{
    if es.len() == 0 {
        Seq::empty()
    } else {
        let e = es.first();
        match e.value {
            Some(v) => seq![
                RowModel {
                    has_value: true,
                    key: e.key,
                    text: render_value(v, deeper(depth), cfg),
                },
            ] + obj_rows(es.drop_first(), depth, cfg),
            None => obj_rows(es.drop_first(), depth, cfg),
        }
    }
}

/// One object pair of a non-preserve object: optional indentation, the
/// quoted key (a missing key renders as empty text), a colon, optional
/// padding, then the value text.
pub open spec fn obj_row_text(row: RowModel, depth: usize, cfg: JsonFixerConfig) -> Seq<char> {
    (if cfg.spec_beautify() {
        indent_text(cfg, deeper(depth))
    } else {
        Seq::empty()
    }) + seq!['"'] + key_or_empty(row.key) + seq!['"', ':'] + (if cfg.spec_space_between()
        || cfg.spec_beautify() {
        seq![' ']
    } else {
        Seq::empty()
    }) + row.text
}

pub open spec fn render_obj_rows(rows: Seq<RowModel>, depth: usize, cfg: JsonFixerConfig) -> Seq<
    char,
>
    decreases rows.len(),
{
    if rows.len() == 0 {
        Seq::empty()
    } else {
        render_obj_rows(rows.drop_last(), depth, cfg) + (if rows.len() > 1 {
            seq![','] + (if cfg.spec_beautify() {
                seq!['\n']
            } else {
                Seq::empty()
            }) + (if cfg.spec_space_between() {
                seq![' ']
            } else {
                Seq::empty()
            })
        } else {
            Seq::empty()
        }) + obj_row_text(rows.last(), depth, cfg)
    }
}

/// A compact, padded or pretty object: defect entries vanish, pairs are
/// sorted by key when asked, separators come from the configuration.
pub open spec fn render_object(es: Seq<EntryModel>, depth: usize, cfg: JsonFixerConfig) -> Seq<
    char,
>
    decreases es, 2int,
{
    let rows = obj_rows(es, depth, cfg);
    if rows.len() == 0 {
        seq!['{', '}']
    } else {
        let ordered = if cfg.sort_keys {
            sort_rows(false, rows)
        } else {
            rows
        };
        seq!['{'] + (if cfg.spec_beautify() {
            seq!['\n']
        } else {
            Seq::empty()
        }) + (if cfg.spec_space_between() {
            seq![' ']
        } else {
            Seq::empty()
        }) + render_obj_rows(ordered, depth, cfg) + (if cfg.spec_beautify() {
            seq!['\n'] + indent_text(cfg, depth)
        } else {
            Seq::empty()
        }) + (if cfg.spec_space_between() {
            seq![' ']
        } else {
            Seq::empty()
        }) + seq!['}']
    }
}

/// The rendered rows of a preserve-mode object, one per entry and in
/// source order: a defect row replays its captured whitespace; a valued
/// row replays whitespace around the quoted key, the colon and the value,
/// with its separating comma set before or after the trailing whitespace
/// according to whether that whitespace holds a newline.
pub open spec fn obj_pres_rows(es: Seq<EntryModel>, depth: usize, cfg: JsonFixerConfig) -> Seq<
    RowModel,
>
    decreases es, 1int,
{
    if es.len() == 0 {
        Seq::empty()
    } else {
        let e = es.first();
        let row = match e.value {
            Some(v) => RowModel {
                has_value: true,
                key: e.key,
                text: opt_or_empty(e.space_bf_key) + seq!['"'] + key_or_empty(e.key) + seq!['"']
                    + opt_or_empty(e.space_af_key) + seq![':'] + opt_or_empty(e.space_bf_val)
                    + render_value(v, deeper(depth), cfg) + (if opt_or_empty(
                    e.space_af_val,
                ).contains('\n') {
                    seq![','] + opt_or_empty(e.space_af_val)
                } else {
                    opt_or_empty(e.space_af_val) + seq![',']
                }),
            },
            None => RowModel {
                has_value: false,
                key: e.key,
                text: opt_or_empty(e.space_bf_key) + opt_or_empty(e.space_af_key),
            },
        };
        seq![row] + obj_pres_rows(es.drop_first(), depth, cfg)
    }
}

/// The preserve-mode object's row order: defect rows in the middle drop
/// out, valued rows are sorted by key when asked, and a defect row in
/// first or last source position is spliced back at its end so the outer
/// whitespace survives.
/// The valued rows, in order.
pub open spec fn filter_valued_rows(rows: Seq<RowModel>) -> Seq<RowModel>
    decreases rows.len(),
{
    if rows.len() == 0 {
        Seq::empty()
    } else if rows.last().has_value {
        filter_valued_rows(rows.drop_last()).push(rows.last())
    } else {
        filter_valued_rows(rows.drop_last())
    }
}

pub open spec fn clean_and_sort_rows(rows: Seq<RowModel>, sort_keys: bool) -> Seq<RowModel> {
    let valued = filter_valued_rows(rows);
    let ordered = if sort_keys {
        sort_rows(true, valued)
    } else {
        valued
    };
    let with_first = if rows.len() > 0 && !rows.first().has_value {
        seq![rows.first()] + ordered
    } else {
        ordered
    };
    if rows.len() > 1 && !rows.last().has_value {
        with_first.push(rows.last())
    } else {
        with_first
    }
}

pub open spec fn concat_row_texts(rows: Seq<RowModel>) -> Seq<char>
    decreases rows.len(),
{
    if rows.len() == 0 {
        Seq::empty()
    } else {
        concat_row_texts(rows.drop_last()) + rows.last().text
    }
}

/// A preserve-mode object: the cleaned rows replayed, then one trailing
/// comma stripped when it is the last non-whitespace character.
pub open spec fn render_object_preserved(
    es: Seq<EntryModel>,
    depth: usize,
    cfg: JsonFixerConfig,
) -> Seq<char>
    decreases es, 2int,
{
    let rows = clean_and_sort_rows(obj_pres_rows(es, depth, cfg), cfg.sort_keys);
    if rows.len() == 0 {
        seq!['{', '}']
    } else {
        seq!['{'] + strip_last_comma(concat_row_texts(rows)) + seq!['}']
    }
}


fn exec_deeper(d: usize) -> (r: usize)
    ensures
        r == deeper(d),
{
    if d == usize::MAX {
        d
    } else {
        d + 1
    }
}

impl IndentStyle {
    /// The indentation unit: `size` spaces, or one tab.
    fn with_size(&self, size: Option<usize>) -> (r: String)
        ensures
            r@ == indent_unit(*self, (match size {
                Some(n) => n as nat,
                None => 0,
            }),
            ),
    {
        let n: usize = match size {
            Some(n) => n,
            None => 0,
        };
        match self {
            IndentStyle::Spaces => {
                let mut v: Vec<char> = Vec::new();
                let mut k: usize = 0;
                proof {
                    assert(v@ =~= char_repeat(' ', 0));
                }
                while k < n
                    invariant
                        0 <= k <= n,
                        v@ == char_repeat(' ', k as nat),
                    decreases n - k,
                {
                    v.push(' ');
                    k += 1;
                }
                chars_to_string(&v)
            },
            IndentStyle::Tabs => {
                let mut v: Vec<char> = Vec::new();
                v.push('\t');
                proof {
                    assert(v@ =~= indent_unit(IndentStyle::Tabs, 0));
                }
                chars_to_string(&v)
            },
        }
    }
}

/// Appends the string's characters to the output.
fn push_str_chars(out: &mut Vec<char>, s: &String)
    ensures
        final(out)@ == old(out)@ + s@,
{
    let mut part = str_to_chars(s.as_str());
    out.append(&mut part);
}

/// Appends one depth's indentation to the output.
#[verifier::loop_isolation(false)]
fn push_indent(out: &mut Vec<char>, depth: usize, cfg: &JsonFixerConfig)
    ensures
        final(out)@ == old(out)@ + indent_text(*cfg, depth),
{
    let indent = cfg.indent_style.with_size(Some(cfg.indent_size));
    let ghost unit = indent_unit(cfg.indent_style, cfg.indent_size as nat);
    let mut k: usize = 0;
    proof {
        assert(out@ =~= old(out)@ + seq_repeat(unit, 0));
    }
    while k < depth
        invariant
            0 <= k <= depth,
            out@ == old(out)@ + seq_repeat(unit, k as nat),
        decreases depth - k,
    {
        push_str_chars(out, &indent);
        proof {
            assert(out@ =~= old(out)@ + seq_repeat(unit, (k + 1) as nat));
        }
        k += 1;
    }
    proof {
        assert(out@ =~= old(out)@ + indent_text(*cfg, depth));
    }
}

/// One rendered object entry in executable form.
struct Row {
    has_value: bool,
    key: Option<String>,
    text: Vec<char>,
}

spec fn opt_string_view(o: Option<String>) -> Option<Seq<char>> {
    match o {
        Some(s) => Some(s@),
        None => None,
    }
}

spec fn row_view(r: Row) -> RowModel {
    RowModel { has_value: r.has_value, key: opt_string_view(r.key), text: r.text@ }
}

spec fn rows_view(rs: Seq<Row>) -> Seq<RowModel>
    decreases rs.len(),
{
    if rs.len() == 0 {
        Seq::empty()
    } else {
        rows_view(rs.drop_last()).push(row_view(rs.last()))
    }
}

proof fn lemma_rows_view_index(rs: Seq<Row>)
    ensures
        rows_view(rs).len() == rs.len(),
        forall|i: int| 0 <= i < rs.len() ==> rows_view(rs)[i] == row_view(rs[i]),
    decreases rs.len(),
{
    if rs.len() > 0 {
        lemma_rows_view_index(rs.drop_last());
    }
}

fn clone_chars(v: &Vec<char>) -> (r: Vec<char>)
    ensures
        r@ == v@,
{
    let mut out: Vec<char> = Vec::new();
    let mut i: usize = 0;
    proof {
        assert(out@ =~= v@.take(0));
    }
    while i < v.len()
        invariant
            0 <= i <= v@.len(),
            out@ == v@.take(i as int),
        decreases v@.len() - i,
    {
        out.push(v[i]);
        proof {
            assert(out@ =~= v@.take(i + 1 as int));
        }
        i += 1;
    }
    proof {
        assert(v@.take(v@.len() as int) =~= v@);
    }
    out
}

fn clone_row(r: &Row) -> (out: Row)
    ensures
        row_view(out) == row_view(*r),
{
    Row {
        has_value: r.has_value,
        key: match &r.key {
            Some(s) => Some(s.clone()),
            None => None,
        },
        text: clone_chars(&r.text),
    }
}

/// The executable key order test matching `row_key_lt`.
fn key_lt(pres: bool, a: &Option<String>, b: &Option<String>) -> (r: bool)
    ensures
        r == row_key_lt(pres, opt_string_view(*a), opt_string_view(*b)),
{
    if pres {
        let ka: Vec<char> = match a {
            Some(s) => str_to_chars(s.as_str()),
            None => Vec::new(),
        };
        let kb: Vec<char> = match b {
            Some(s) => str_to_chars(s.as_str()),
            None => Vec::new(),
        };
        proof {
            assert(ka@ == key_or_empty(opt_string_view(*a)));
            assert(kb@ == key_or_empty(opt_string_view(*b)));
        }
        chars_lt(&ka, &kb)
    } else {
        match (a, b) {
            (Option::None, Option::None) => false,
            (Option::None, Option::Some(_)) => true,
            (Option::Some(_), Option::None) => false,
            (Option::Some(x), Option::Some(y)) => {
                let kx = str_to_chars(x.as_str());
                let ky = str_to_chars(y.as_str());
                chars_lt(&kx, &ky)
            },
        }
    }
}

proof fn lemma_insert_row_at(pres: bool, sorted: Seq<RowModel>, x: RowModel, j: int)
    requires
        0 <= j <= sorted.len(),
        forall|t: int| j <= t < sorted.len() ==> row_key_lt(pres, x.key, #[trigger] sorted[t].key),
        j > 0 ==> !row_key_lt(pres, x.key, sorted[j - 1].key),
    ensures
        insert_row(pres, sorted, x) == sorted.take(j) + seq![x] + sorted.skip(j),
    decreases sorted.len(),
{
    if j == sorted.len() {
        assert(insert_row(pres, sorted, x) == sorted.push(x));
        assert(sorted.take(j) + seq![x] + sorted.skip(j) =~= sorted.push(x));
    } else {
        assert(row_key_lt(pres, x.key, sorted.last().key));
        lemma_insert_row_at(pres, sorted.drop_last(), x, j);
        assert(sorted.drop_last().take(j) =~= sorted.take(j));
        assert(sorted.drop_last().skip(j) =~= sorted.skip(j).drop_last());
        assert((sorted.take(j) + seq![x] + sorted.skip(j).drop_last()).push(sorted.last()) =~= (
        sorted.take(j) + seq![x] + sorted.skip(j)));
    }
}

/// Stable insertion sort of rows by key, in place of the standard sort
/// call: the result is exactly `sort_rows` of the input.
#[verifier::loop_isolation(false)]
fn sort_rows_exec(pres: bool, rows: Vec<Row>) -> (out: Vec<Row>)
    ensures
        rows_view(out@) == sort_rows(pres, rows_view(rows@)),
{
    let ghost rv = rows_view(rows@);
    proof {
        lemma_rows_view_index(rows@);
    }
    let mut remaining = rows;
    let mut out: Vec<Row> = Vec::new();
    let ghost mut taken: int = 0;
    let ghost n = rv.len();
    proof {
        assert(rows_view(out@) =~= Seq::<RowModel>::empty());
        assert(rv.take(0) =~= Seq::<RowModel>::empty());
        assert(sort_rows(pres, rv.take(0)) =~= Seq::<RowModel>::empty());
        assert(rows_view(remaining@) =~= rv.skip(0));
    }
    while remaining.len() > 0
        invariant
            0 <= taken <= n,
            taken + remaining@.len() == n,
            rows_view(remaining@) == rv.skip(taken),
            rows_view(out@) == sort_rows(pres, rv.take(taken)),
        decreases remaining@.len(),
    {
        let ghost prev_rem = remaining@;
        let x = remaining.remove(0);
        proof {
            lemma_rows_view_index(prev_rem);
            lemma_rows_view_index(remaining@);
            assert(remaining@ =~= prev_rem.skip(1));
            assert forall|i: int| 0 <= i < remaining@.len() implies rows_view(remaining@)[i]
                == rv.skip(taken + 1)[i] by {
                assert(rows_view(remaining@)[i] == row_view(remaining@[i]));
                assert(remaining@[i] == prev_rem[i + 1]);
                assert(rows_view(prev_rem)[i + 1] == row_view(prev_rem[i + 1]));
                assert(rv.skip(taken)[i + 1] == rv[taken + 1 + i]);
                assert(rv.skip(taken + 1)[i] == rv[taken + 1 + i]);
            }
            assert(rows_view(remaining@) =~= rv.skip(taken + 1));
            assert(rows_view(prev_rem)[0] == row_view(prev_rem[0]));
            assert(rv.skip(taken)[0] == rv[taken]);
            assert(row_view(x) == rv[taken]);
        }
        // find the stable insertion point from the end
        let mut j: usize = out.len();
        let ghost sorted = rows_view(out@);
        proof {
            lemma_rows_view_index(out@);
        }
        while j > 0 && key_lt(pres, &x.key, &out[j - 1].key)
            invariant
                0 <= j <= out@.len(),
                forall|t: int| j <= t < out@.len() ==> row_key_lt(
                    pres,
                    row_view(x).key,
                    #[trigger] sorted[t].key,
                ),
            decreases j,
        {
            j -= 1;
        }
        let ghost prev_out = out@;
        let ghost xv = row_view(x);
        out.insert(j, x);
        proof {
            lemma_insert_row_at(pres, sorted, xv, j as int);
            lemma_rows_view_index(out@);
            lemma_rows_view_index(prev_out);
            assert forall|i: int| 0 <= i < out@.len() implies rows_view(out@)[i] == (sorted.take(
                j as int,
            ) + seq![xv] + sorted.skip(j as int))[i] by {
                assert(rows_view(out@)[i] == row_view(out@[i]));
                if i < j {
                    assert(out@[i] == prev_out[i]);
                    assert(sorted[i] == row_view(prev_out[i]));
                } else if i == j {
                    assert(out@[i] == x);
                } else {
                    assert(out@[i] == prev_out[i - 1]);
                    assert(sorted[i - 1] == row_view(prev_out[i - 1]));
                }
            }
            assert(rows_view(out@) =~= sorted.take(j as int) + seq![xv] + sorted.skip(
                j as int,
            ));
            assert(rv.take(taken + 1).drop_last() =~= rv.take(taken));
            assert(rv.take(taken + 1).last() == rv[taken]);
            assert(rows_view(out@) == sort_rows(pres, rv.take(taken + 1)));
        }
        proof {
            taken = taken + 1;
        }
    }
    proof {
        assert(rv.take(n as int) =~= rv);
    }
    out
}


/// Whether the text holds a newline.
#[verifier::loop_isolation(false)]
fn contains_newline(s: &String) -> (r: bool)
    ensures
        r == s@.contains('\n'),
{
    let v = str_to_chars(s.as_str());
    let mut i: usize = 0;
    while i < v.len()
        invariant
            0 <= i <= v@.len(),
            v@ == s@,
            forall|t: int| 0 <= t < i ==> v@[t] != '\n',
        decreases v@.len() - i,
    {
        if v[i] == '\n' {
            return true;
        }
        i += 1;
    }
    false
}

/// Drops the trailing comma when it is the last non-whitespace character.
#[verifier::loop_isolation(false)]
fn strip_trailing_comma(body: &mut Vec<char>)
    ensures
        final(body)@ == strip_last_comma(old(body)@),
{
    let ghost s = old(body)@;
    let mut j: usize = body.len();
    proof {
        assert(s.take(s.len() as int) =~= s);
    }
    while j > 0 && is_whitespace_char(body[j - 1])
        invariant
            0 <= j <= s.len(),
            body@ == s,
            last_non_ws(s) == last_non_ws(s.take(j as int)),
        decreases j,
    {
        proof {
            assert(s.take(j as int).last() == s[j - 1]);
            assert(s.take(j as int).drop_last() =~= s.take(j - 1));
        }
        j -= 1;
    }
    if j > 0 {
        proof {
            assert(s.take(j as int).last() == s[j - 1]);
            assert(last_non_ws(s) == j - 1);
        }
        if body[j - 1] == ',' {
            body.remove(j - 1);
            proof {
                assert(body@ =~= s.remove(j - 1));
            }
        }
    } else {
        proof {
            assert(s.take(0) =~= Seq::<char>::empty());
            assert(last_non_ws(s) == -1);
        }
    }
}

/// The compact, padded or pretty array renderer.
#[verifier::loop_isolation(false)]
#[verifier::rlimit(100)]
fn format_array_chars(es: &Vec<JsonEntryValue>, depth: usize, cfg: &JsonFixerConfig) -> (out: Vec<
    char,
>)
    ensures
        out@ == render_array(view_entries(es@), depth, *cfg),
    decreases es@, 1int,
{
    let ghost ves = view_entries(es@);
    proof {
        lemma_view_entries_index(es@);
    }
    let mut found = false;
    let mut i: usize = 0;
    while i < es.len()
        invariant
            0 <= i <= es@.len(),
            found == exists|t: int| 0 <= t < i && ves[t].value is Some,
        decreases es@.len() - i,
    {
        proof {
            assert(ves[i as int] == view_entry(es@[i as int]));
        }
        if es[i].value.is_some() {
            found = true;
        }
        i += 1;
    }
    if !found {
        let mut out: Vec<char> = Vec::new();
        out.push('[');
        out.push(']');
        proof {
            assert(!any_valued(ves));
            assert(out@ =~= seq!['[', ']']);
        }
        return out;
    }
    let mut out: Vec<char> = Vec::new();
    out.push('[');
    if cfg.beautify() {
        out.push('\n');
    }
    if cfg.space_between() {
        out.push(' ');
    }
    let ghost head = out@;
    let ghost mut emitted = Seq::<char>::empty();
    let mut first_done = false;
    let mut i: usize = 0;
    proof {
        assert(ves.skip(0) =~= ves);
        assert(out@ =~= head + emitted);
    }
    while i < es.len()
        invariant
            0 <= i <= es@.len(),
            out@ == head + emitted,
            render_array_items(ves, depth, *cfg, false) == emitted + render_array_items(
                ves.skip(i as int),
                depth,
                *cfg,
                first_done,
            ),
        decreases es@.len() - i,
    {
        proof {
            assert(ves.skip(i as int).first() == ves[i as int]);
            assert(ves.skip(i as int).drop_first() =~= ves.skip(i + 1));
        }
        match &es[i].value {
            Some(v) => {
                if first_done {
                    out.push(',');
                    if cfg.beautify() {
                        out.push('\n');
                    }
                    if cfg.space_between() {
                        out.push(' ');
                    }
                }
                if cfg.beautify() {
                    push_indent(&mut out, exec_deeper(depth), cfg);
                }
                let mut part = format_value_chars(v, exec_deeper(depth), cfg);
                out.append(&mut part);
                first_done = true;
            },
            None => {},
        }
        proof {
            emitted = out@.skip(head.len() as int);
            assert(out@ =~= head + emitted);
            assert(render_array_items(ves, depth, *cfg, false) == emitted + render_array_items(
                ves.skip(i + 1),
                depth,
                *cfg,
                first_done,
            ));
        }
        i += 1;
    }
    proof {
        assert(ves.skip(es@.len() as int) =~= Seq::<EntryModel>::empty());
    }
    if cfg.beautify() {
        out.push('\n');
        push_indent(&mut out, depth, cfg);
    }
    if cfg.space_between() {
        out.push(' ');
    }
    out.push(']');
    proof {
        assert(out@ =~= render_array(ves, depth, *cfg));
    }
    out
}

/// The preserve-mode array renderer.
#[verifier::loop_isolation(false)]
#[verifier::rlimit(100)]
fn format_array_pres_chars(
    es: &Vec<JsonEntryValue>,
    depth: usize,
    cfg: &JsonFixerConfig,
) -> (out: Vec<char>)
    ensures
        out@ == render_array_preserved(view_entries(es@), depth, *cfg),
    decreases es@, 1int,
{
    let ghost ves = view_entries(es@);
    proof {
        lemma_view_entries_index(es@);
    }
    let mut out: Vec<char> = Vec::new();
    if es.len() == 0 {
        out.push('[');
        out.push(']');
        proof {
            assert(out@ =~= seq!['[', ']']);
        }
        return out;
    }
    out.push('[');
    let ghost head = out@;
    let ghost mut emitted = Seq::<char>::empty();
    let mut i: usize = 0;
    proof {
        assert(ves.skip(0) =~= ves);
        assert(out@ =~= head + emitted);
    }
    while i < es.len()
        invariant
            0 <= i <= es@.len(),
            out@ == head + emitted,
            render_array_pres_items(ves, depth, *cfg, true) == emitted + render_array_pres_items(
                ves.skip(i as int),
                depth,
                *cfg,
                i == 0,
            ),
        decreases es@.len() - i,
    {
        proof {
            assert(ves.skip(i as int).first() == ves[i as int]);
            assert(ves.skip(i as int).drop_first() =~= ves.skip(i + 1));
        }
        let has_value = es[i].value.is_some();
        if i > 0 && has_value {
            out.push(',');
        }
        match &es[i].space_bf_val {
            Some(sp) => push_str_chars(&mut out, sp),
            None => {},
        }
        match &es[i].value {
            Some(v) => {
                let mut part = format_value_chars(v, exec_deeper(depth), cfg);
                out.append(&mut part);
            },
            None => {},
        }
        match &es[i].space_af_val {
            Some(sp) => push_str_chars(&mut out, sp),
            None => {},
        }
        proof {
            emitted = out@.skip(head.len() as int);
            assert(out@ =~= head + emitted);
            assert(render_array_pres_items(ves, depth, *cfg, true) == emitted
                + render_array_pres_items(ves.skip(i + 1), depth, *cfg, false));
        }
        i += 1;
    }
    proof {
        assert(ves.skip(es@.len() as int) =~= Seq::<EntryModel>::empty());
    }
    out.push(']');
    proof {
        assert(out@ =~= render_array_preserved(ves, depth, *cfg));
    }
    out
}

/// Builds the rendered rows of a non-preserve object.
#[verifier::loop_isolation(false)]
fn build_obj_rows(es: &Vec<JsonEntryValue>, depth: usize, cfg: &JsonFixerConfig) -> (rows: Vec<
    Row,
>)
    ensures
        rows_view(rows@) == obj_rows(view_entries(es@), depth, *cfg),
    decreases es@, 0int,
{
    let ghost ves = view_entries(es@);
    proof {
        lemma_view_entries_index(es@);
    }
    let mut rows: Vec<Row> = Vec::new();
    let mut i: usize = 0;
    proof {
        assert(ves.skip(0) =~= ves);
        assert(rows_view(rows@) =~= Seq::<RowModel>::empty());
    }
    while i < es.len()
        invariant
            0 <= i <= es@.len(),
            obj_rows(ves, depth, *cfg) == rows_view(rows@) + obj_rows(
                ves.skip(i as int),
                depth,
                *cfg,
            ),
        decreases es@.len() - i,
    {
        proof {
            assert(ves.skip(i as int).first() == ves[i as int]);
            assert(ves.skip(i as int).drop_first() =~= ves.skip(i + 1));
        }
        match &es[i].value {
            Some(v) => {
                let ghost prev = rows@;
                let text = format_value_chars(v, exec_deeper(depth), cfg);
                let key = match &es[i].key {
                    Some(k) => Some(k.clone()),
                    None => None,
                };
                rows.push(Row { has_value: true, key, text });
                proof {
                    assert(rows@.drop_last() =~= prev);
                    assert(rows_view(rows@) == rows_view(prev).push(row_view(rows@.last())));
                    assert(rows_view(rows@) + obj_rows(ves.skip(i + 1), depth, *cfg) =~= rows_view(
                        prev,
                    ) + (seq![row_view(rows@.last())] + obj_rows(ves.skip(i + 1), depth, *cfg)));
                }
            },
            None => {},
        }
        i += 1;
    }
    proof {
        assert(ves.skip(es@.len() as int) =~= Seq::<EntryModel>::empty());
        assert(obj_rows(ves, depth, *cfg) =~= rows_view(rows@));
    }
    rows
}

/// Renders the sorted rows of a non-preserve object, separators included.
#[verifier::loop_isolation(false)]
#[verifier::rlimit(100)]
#[verifier::spinoff_prover]
fn render_rows_exec(ordered: &Vec<Row>, depth: usize, cfg: &JsonFixerConfig, out: &mut Vec<char>)
    ensures
        final(out)@ == old(out)@ + render_obj_rows(rows_view(ordered@), depth, *cfg),
{
    let ghost ov = rows_view(ordered@);
    let ghost head = old(out)@;
    proof {
        lemma_rows_view_index(ordered@);
        assert(ov.take(0) =~= Seq::<RowModel>::empty());
        assert(out@ =~= head + render_obj_rows(ov.take(0), depth, *cfg));
    }
    let mut i: usize = 0;
    while i < ordered.len()
        invariant
            0 <= i <= ov.len(),
            ordered@.len() == ov.len(),
            out@ == head + render_obj_rows(ov.take(i as int), depth, *cfg),
        decreases ov.len() - i,
    {
        if i > 0 {
            out.push(',');
            if cfg.beautify() {
                out.push('\n');
            }
            if cfg.space_between() {
                out.push(' ');
            }
        }
        if cfg.beautify() {
            push_indent(out, exec_deeper(depth), cfg);
        }
        out.push('"');
        match &ordered[i].key {
            Some(k) => push_str_chars(out, k),
            None => {},
        }
        out.push('"');
        out.push(':');
        if cfg.space_between() || cfg.beautify() {
            out.push(' ');
        }
        let mut part = clone_chars(&ordered[i].text);
        out.append(&mut part);
        proof {
            assert(ov.take(i + 1).drop_last() =~= ov.take(i as int));
            assert(ov.take(i + 1).last() == ov[i as int]);
            assert(ov[i as int] == row_view(ordered@[i as int]));
            assert(out@ =~= head + render_obj_rows(ov.take(i + 1), depth, *cfg));
        }
        i += 1;
    }
    proof {
        assert(ov.take(ov.len() as int) =~= ov);
    }
}

/// The compact, padded or pretty object renderer.
#[verifier::loop_isolation(false)]
#[verifier::rlimit(100)]
fn format_object_chars(es: &Vec<JsonEntryValue>, depth: usize, cfg: &JsonFixerConfig) -> (out: Vec<
    char,
>)
    ensures
        out@ == render_object(view_entries(es@), depth, *cfg),
    decreases es@, 1int,
{
    let ghost ves = view_entries(es@);
    let rows = build_obj_rows(es, depth, cfg);
    proof {
        lemma_rows_view_index(rows@);
    }
    if rows.len() == 0 {
        let mut out: Vec<char> = Vec::new();
        out.push('{');
        out.push('}');
        proof {
            assert(out@ =~= seq!['{', '}']);
        }
        return out;
    }
    let ordered = if cfg.sort_keys {
        sort_rows_exec(false, rows)
    } else {
        rows
    };
    let ghost ov = rows_view(ordered@);
    let mut out: Vec<char> = Vec::new();
    out.push('{');
    if cfg.beautify() {
        out.push('\n');
    }
    if cfg.space_between() {
        out.push(' ');
    }
    render_rows_exec(&ordered, depth, cfg, &mut out);
    if cfg.beautify() {
        out.push('\n');
        push_indent(&mut out, depth, cfg);
    }
    if cfg.space_between() {
        out.push(' ');
    }
    out.push('}');
    proof {
        assert(out@ =~= seq!['{'] + (if cfg.spec_beautify() {
            seq!['\n']
        } else {
            Seq::<char>::empty()
        }) + (if cfg.spec_space_between() {
            seq![' ']
        } else {
            Seq::<char>::empty()
        }) + render_obj_rows(ov, depth, *cfg) + (if cfg.spec_beautify() {
            seq!['\n'] + indent_text(*cfg, depth)
        } else {
            Seq::<char>::empty()
        }) + (if cfg.spec_space_between() {
            seq![' ']
        } else {
            Seq::<char>::empty()
        }) + seq!['}']);
        assert(out@ == render_object(ves, depth, *cfg));
    }
    out
}

/// The preserve-mode object renderer.
#[verifier::loop_isolation(false)]
#[verifier::rlimit(100)]
#[verifier::spinoff_prover]
fn format_object_pres_chars(
    es: &Vec<JsonEntryValue>,
    depth: usize,
    cfg: &JsonFixerConfig,
) -> (out: Vec<char>)
    ensures
        out@ == render_object_preserved(view_entries(es@), depth, *cfg),
    decreases es@, 1int,
{
    let ghost ves = view_entries(es@);
    proof {
        lemma_view_entries_index(es@);
    }
    // one row per entry, in source order
    let mut rows: Vec<Row> = Vec::new();
    let mut i: usize = 0;
    proof {
        assert(ves.skip(0) =~= ves);
        assert(rows_view(rows@) =~= Seq::<RowModel>::empty());
    }
    while i < es.len()
        invariant
            0 <= i <= es@.len(),
            rows@.len() == i,
            obj_pres_rows(ves, depth, *cfg) == rows_view(rows@) + obj_pres_rows(
                ves.skip(i as int),
                depth,
                *cfg,
            ),
        decreases es@.len() - i,
    {
        proof {
            assert(ves.skip(i as int).first() == ves[i as int]);
            assert(ves.skip(i as int).drop_first() =~= ves.skip(i + 1));
        }
        let ghost prev = rows@;
        let mut text: Vec<char> = Vec::new();
        let has_value = es[i].value.is_some();
        if has_value {
            match &es[i].space_bf_key {
                Some(sp) => push_str_chars(&mut text, sp),
                None => {},
            }
            text.push('"');
            match &es[i].key {
                Some(k) => push_str_chars(&mut text, k),
                None => {},
            }
            text.push('"');
            match &es[i].space_af_key {
                Some(sp) => push_str_chars(&mut text, sp),
                None => {},
            }
            text.push(':');
            match &es[i].space_bf_val {
                Some(sp) => push_str_chars(&mut text, sp),
                None => {},
            }
            match &es[i].value {
                Some(v) => {
                    let mut part = format_value_chars(v, exec_deeper(depth), cfg);
                    text.append(&mut part);
                },
                None => {},
            }
            let nl = match &es[i].space_af_val {
                Some(sp) => contains_newline(sp),
                None => false,
            };
            if nl {
                text.push(',');
                match &es[i].space_af_val {
                    Some(sp) => push_str_chars(&mut text, sp),
                    None => {},
                }
            } else {
                match &es[i].space_af_val {
                    Some(sp) => push_str_chars(&mut text, sp),
                    None => {},
                }
                text.push(',');
            }
        } else {
            match &es[i].space_bf_key {
                Some(sp) => push_str_chars(&mut text, sp),
                None => {},
            }
            match &es[i].space_af_key {
                Some(sp) => push_str_chars(&mut text, sp),
                None => {},
            }
        }
        let key = match &es[i].key {
            Some(k) => Some(k.clone()),
            None => None,
        };
        rows.push(Row { has_value, key, text });
        proof {
            assert(rows@.drop_last() =~= prev);
            assert(rows_view(rows@) == rows_view(prev).push(row_view(rows@.last())));
            assert(row_view(rows@.last()) =~= obj_pres_rows(ves.skip(i as int), depth, *cfg).first());
            assert(rows_view(rows@) + obj_pres_rows(ves.skip(i + 1), depth, *cfg) =~= rows_view(
                prev,
            ) + obj_pres_rows(ves.skip(i as int), depth, *cfg));
        }
        i += 1;
    }
    proof {
        assert(ves.skip(es@.len() as int) =~= Seq::<EntryModel>::empty());
        assert(obj_pres_rows(ves, depth, *cfg) =~= rows_view(rows@));
        lemma_rows_view_index(rows@);
    }
    let ghost prv = rows_view(rows@);
    let n = rows.len();
    // the valued rows, in order
    let mut valued: Vec<Row> = Vec::new();
    let mut i: usize = 0;
    proof {
        assert(prv.take(0) =~= Seq::<RowModel>::empty());
        assert(rows_view(valued@) =~= filter_valued_rows(prv.take(0)));
    }
    while i < n
        invariant
            0 <= i <= n == rows@.len(),
            rows_view(valued@) == filter_valued_rows(prv.take(i as int)),
        decreases n - i,
    {
        proof {
            assert(prv.take(i + 1).drop_last() =~= prv.take(i as int));
            assert(prv.take(i + 1).last() == prv[i as int]);
        }
        if rows[i].has_value {
            let ghost prev = valued@;
            let r = clone_row(&rows[i]);
            valued.push(r);
            proof {
                assert(valued@.drop_last() =~= prev);
                assert(rows_view(valued@) == rows_view(prev).push(row_view(valued@.last())));
            }
        }
        i += 1;
    }
    proof {
        assert(prv.take(prv.len() as int) =~= prv);
    }
    let ordered = if cfg.sort_keys {
        sort_rows_exec(true, valued)
    } else {
        valued
    };
    // splice a leading or trailing defect row back in
    let mut cleaned: Vec<Row> = Vec::new();
    let ghost ordered_v = rows_view(ordered@);
    if n > 0 && !rows[0].has_value {
        let r = clone_row(&rows[0]);
        cleaned.push(r);
        proof {
            assert(cleaned@.len() == 1 && cleaned@.last() == r);
            assert(cleaned@.drop_last() =~= Seq::<Row>::empty());
            assert(rows_view(cleaned@) == rows_view(cleaned@.drop_last()).push(row_view(r)));
            assert(prv[0] == row_view(rows@[0]));
            assert(rows_view(cleaned@) =~= seq![prv[0]]);
        }
    }
    let ghost lead = rows_view(cleaned@);
    let mut ordered_mut = ordered;
    let ghost mut moved = 0int;
    proof {
        lemma_rows_view_index(ordered_mut@);
        assert(rows_view(ordered_mut@) =~= ordered_v.skip(0));
        assert(rows_view(cleaned@) =~= lead + ordered_v.take(0));
    }
    while ordered_mut.len() > 0
        invariant
            0 <= moved <= ordered_v.len(),
            moved + ordered_mut@.len() == ordered_v.len(),
            rows_view(ordered_mut@) == ordered_v.skip(moved),
            rows_view(cleaned@) == lead + ordered_v.take(moved),
        decreases ordered_mut@.len(),
    {
        let ghost prev_rem = ordered_mut@;
        let ghost prev_cleaned = cleaned@;
        let x = ordered_mut.remove(0);
        cleaned.push(x);
        proof {
            lemma_rows_view_index(prev_rem);
            lemma_rows_view_index(ordered_mut@);
            assert(ordered_mut@ =~= prev_rem.skip(1));
            assert forall|t: int| 0 <= t < ordered_mut@.len() implies rows_view(ordered_mut@)[t]
                == ordered_v.skip(moved + 1)[t] by {
                assert(rows_view(ordered_mut@)[t] == row_view(ordered_mut@[t]));
                assert(ordered_mut@[t] == prev_rem[t + 1]);
                assert(rows_view(prev_rem)[t + 1] == row_view(prev_rem[t + 1]));
                assert(ordered_v.skip(moved)[t + 1] == ordered_v[moved + 1 + t]);
                assert(ordered_v.skip(moved + 1)[t] == ordered_v[moved + 1 + t]);
            }
            assert(rows_view(ordered_mut@) =~= ordered_v.skip(moved + 1));
            assert(cleaned@.drop_last() =~= prev_cleaned);
            assert(rows_view(cleaned@) == rows_view(prev_cleaned).push(row_view(x)));
            assert(rows_view(prev_rem)[0] == row_view(prev_rem[0]));
            assert(ordered_v.skip(moved)[0] == ordered_v[moved]);
            assert(row_view(x) == ordered_v[moved]);
            assert(ordered_v.take(moved + 1).drop_last() =~= ordered_v.take(moved));
            assert(ordered_v.take(moved + 1).last() == ordered_v[moved]);
            assert(rows_view(cleaned@) =~= lead + ordered_v.take(moved + 1));
            moved = moved + 1;
        }
    }
    proof {
        assert(ordered_v.take(ordered_v.len() as int) =~= ordered_v);
    }
    if n > 1 && !rows[n - 1].has_value {
        let ghost prev_cleaned = cleaned@;
        let r = clone_row(&rows[n - 1]);
        cleaned.push(r);
        proof {
            assert(cleaned@.drop_last() =~= prev_cleaned);
            assert(rows_view(cleaned@) == rows_view(prev_cleaned).push(prv[n - 1]));
        }
    }
    let ghost cls = clean_and_sort_rows(prv, cfg.sort_keys);
    proof {
        assert(rows_view(cleaned@) =~= cls);
    }
    let mut out: Vec<char> = Vec::new();
    if cleaned.len() == 0 {
        out.push('{');
        out.push('}');
        proof {
            lemma_rows_view_index(cleaned@);
            assert(out@ =~= seq!['{', '}']);
        }
        return out;
    }
    proof {
        lemma_rows_view_index(cleaned@);
    }
    // the body: the row texts in order, then one trailing comma stripped
    let mut body: Vec<char> = Vec::new();
    let mut i: usize = 0;
    proof {
        assert(cls.take(0) =~= Seq::<RowModel>::empty());
        assert(body@ =~= concat_row_texts(cls.take(0)));
    }
    while i < cleaned.len()
        invariant
            0 <= i <= cls.len(),
            cleaned@.len() == cls.len(),
            body@ == concat_row_texts(cls.take(i as int)),
        decreases cls.len() - i,
    {
        let mut part = clone_chars(&cleaned[i].text);
        body.append(&mut part);
        proof {
            assert(cls.take(i + 1).drop_last() =~= cls.take(i as int));
            assert(cls.take(i + 1).last() == cls[i as int]);
            assert(cls[i as int] == row_view(cleaned@[i as int]));
            assert(body@ =~= concat_row_texts(cls.take(i + 1)));
        }
        i += 1;
    }
    proof {
        assert(cls.take(cls.len() as int) =~= cls);
    }
    strip_trailing_comma(&mut body);
    out.push('{');
    let mut b = body;
    out.append(&mut b);
    out.push('}');
    proof {
        assert(out@ =~= render_object_preserved(ves, depth, *cfg));
    }
    out
}

/// The renderer of one document value: exactly the text of `render_value`.
fn format_value_chars(v: &JsonValue, depth: usize, cfg: &JsonFixerConfig) -> (out: Vec<char>)
    ensures
        out@ == render_value(view_value(*v), depth, *cfg),
    decreases *v, 2int,
{
    match v {
        JsonValue::Null => {
            let mut out: Vec<char> = Vec::new();
            out.push('n');
            out.push('u');
            out.push('l');
            out.push('l');
            proof {
                assert(out@ =~= seq!['n', 'u', 'l', 'l']);
            }
            out
        },
        JsonValue::Boolean(b) => {
            let mut out: Vec<char> = Vec::new();
            if *b {
                out.push('t');
                out.push('r');
                out.push('u');
                out.push('e');
                proof {
                    assert(out@ =~= seq!['t', 'r', 'u', 'e']);
                }
            } else {
                out.push('f');
                out.push('a');
                out.push('l');
                out.push('s');
                out.push('e');
                proof {
                    assert(out@ =~= seq!['f', 'a', 'l', 's', 'e']);
                }
            }
            out
        },
        JsonValue::Number(s) => str_to_chars(s.as_str()),
        JsonValue::String(s) => {
            let mut out: Vec<char> = Vec::new();
            out.push('"');
            push_str_chars(&mut out, s);
            out.push('"');
            proof {
                assert(out@ =~= seq!['"'] + s@ + seq!['"']);
            }
            out
        },
        JsonValue::Space(s) => str_to_chars(s.as_str()),
        JsonValue::Array(es) => if cfg.preserve() {
            format_array_pres_chars(es, depth, cfg)
        } else {
            format_array_chars(es, depth, cfg)
        },
        JsonValue::Object(es) => if cfg.preserve() {
            format_object_pres_chars(es, depth, cfg)
        } else {
            format_object_chars(es, depth, cfg)
        },
    }
}

/// A renderer of document models.
pub trait Formatter {
    /// Renders the document under the configuration; the text is exactly
    /// what `render_value` states for depth zero.
    fn format(&self, value: &JsonValue, config: &JsonFixerConfig) -> (r: Result<
        String,
        JsonFixerError,
    >)
        ensures
            r matches Ok(s) && s@ == render_value(view_value(*value), 0, *config),
    ;
}

/// The document renderer.
pub struct JsonFormatter;

impl Formatter for JsonFormatter {
    fn format(&self, value: &JsonValue, config: &JsonFixerConfig) -> (r: Result<
        String,
        JsonFixerError,
    >) {
        let out = format_value_chars(value, 0, config);
        Ok(chars_to_string(&out))
    }
}

} // verus!
