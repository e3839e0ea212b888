//! The statement generator: renders a table model into one SQL statement of
//! a requested kind. Statements that need data values or predicates take the
//! randomized choices as an explicit argument (a [`Draw`] per column), so the
//! rendering itself is a pure, fully specified function; the convenience
//! entry points draw the choices from the process-wide random generator and
//! today's date from the clock.

use vstd::prelude::*;
use crate::schema::{SqlType, Table, Column, TableV, ColumnV};
use crate::dates::{Date, date_wf, date_le, date_str, push_date, date_le_exec, current_date};
use crate::numfmt::{dec_str, int_str, decimal_lit, push_u64, push_i32, push_decimal_lit};
use crate::text::{push_str_chars, push_string_chars, str_eq, chars_to_string};
use rand::Rng;

verus! {

/// The randomized choices one column may consume while rendering a
/// statement: a comparison-operator index, a numeric literal, a list of
/// name-pool indices for `IN (...)` lists and quoted literals, and a day
/// offset for the start of a `BETWEEN` range.
#[derive(Clone)]
pub struct Draw {
    pub op: u8,
    pub val: u8,
    pub picks: Vec<u8>,
    pub date_offset: u8,
}

/// The mathematical model of a [`Draw`].
pub struct DrawV {
    pub op: int,
    pub val: int,
    pub picks: Seq<int>,
    pub date_offset: int,
}

impl View for Draw {
    type V = DrawV;

    open spec fn view(&self) -> DrawV {
        DrawV {
            op: self.op as int,
            val: self.val as int,
            picks: self.picks@.map_values(|p: u8| p as int),
            date_offset: self.date_offset as int,
        }
    }
}

/// The ranges the drawing code guarantees: five operators, values in
/// [1, 100), two to ten name picks from a pool of four, day offsets below 3.
pub open spec fn draw_wf(d: DrawV) -> bool {
    &&& 0 <= d.op < 5
    &&& 1 <= d.val < 100
    &&& 2 <= d.picks.len() <= 10
    &&& forall|i: int| 0 <= i < d.picks.len() ==> 0 <= #[trigger] d.picks[i] < 4
    &&& 0 <= d.date_offset < 3
}

pub open spec fn draws_wf(ds: Seq<DrawV>) -> bool {
    forall|i: int| 0 <= i < ds.len() ==> draw_wf(#[trigger] ds[i])
}

pub open spec fn draws_view(ds: Seq<Draw>) -> Seq<DrawV> {
    ds.map_values(|d: Draw| d@)
}

// ---------------------------------------------------------------------------
// Column type classification
// ---------------------------------------------------------------------------

pub open spec fn is_numeric_type(t: Seq<char>) -> bool {
    t == "int"@ || t == "number"@
}

pub open spec fn is_text_type(t: Seq<char>) -> bool {
    t == "varchar"@ || t == "text"@
}

pub open spec fn is_date_type(t: Seq<char>) -> bool {
    t == "date"@ || t == "datetime"@
}

/// Whether a column contributes a clause to predicate synthesis; columns of
/// unrecognized types are inert and contribute nothing.
pub open spec fn has_pred(c: ColumnV) -> bool {
    is_numeric_type(c.column_type) || is_text_type(c.column_type) || is_date_type(c.column_type)
}

fn class_numeric(t: &String) -> (b: bool)
    ensures
        b == is_numeric_type(t@),
{
    str_eq(t.as_str(), "int") || str_eq(t.as_str(), "number")
}

fn class_text(t: &String) -> (b: bool)
    ensures
        b == is_text_type(t@),
{
    str_eq(t.as_str(), "varchar") || str_eq(t.as_str(), "text")
}

fn class_date(t: &String) -> (b: bool)
    ensures
        b == is_date_type(t@),
{
    str_eq(t.as_str(), "date") || str_eq(t.as_str(), "datetime")
}

// ---------------------------------------------------------------------------
// Per-column clause of CREATE / ALTER statements
// ---------------------------------------------------------------------------

/// `(length)` or `(length,decimals)` after the type, or nothing at all.
pub open spec fn col_len_suffix(c: ColumnV) -> Seq<char> {
    match c.length {
        Some(l) => "("@ + int_str(l) + (match c.decimal_places {
            Some(d) => ","@ + int_str(d),
            None => Seq::empty(),
        }) + ")"@,
        None => Seq::empty(),
    }
}

/// One column clause: name, type, optional width, `NOT NULL` for
/// non-nullable columns, `PRIMARY KEY` for the key column.
pub open spec fn col_clause(c: ColumnV) -> Seq<char> {
    c.name + " "@ + c.column_type + col_len_suffix(c)
        + (if c.is_nullable { Seq::<char>::empty() } else { " NOT NULL"@ })
        + (if c.is_pkey { " PRIMARY KEY"@ } else { Seq::<char>::empty() })
}

/// The separator written after the clause of column `i`: nothing when the
/// column bears the same name as the table's last column, `", "` otherwise.
pub open spec fn clause_sep(t: TableV, i: int) -> Seq<char> {
    if t.columns[i].name == t.columns[t.columns.len() - 1].name {
        Seq::empty()
    } else {
        ", "@
    }
}

fn push_col_clause(out: &mut Vec<char>, c: &Column)
    ensures
        final(out)@ == old(out)@ + col_clause(c@),
{
    push_string_chars(out, &c.name);
    push_str_chars(out, " ");
    push_string_chars(out, &c.column_type);
    match c.length {
        Some(l) => {
            push_str_chars(out, "(");
            push_i32(out, l);
            match c.decimal_places {
                Some(d) => {
                    push_str_chars(out, ",");
                    push_i32(out, d);
                }
                None => {}
            }
            push_str_chars(out, ")");
        }
        None => {}
    }
    if !c.is_nullable {
        push_str_chars(out, " NOT NULL");
    }
    if c.is_pkey {
        push_str_chars(out, " PRIMARY KEY");
    }
    proof {
        assert(out@ =~= old(out)@ + col_clause(c@));
    }
}

/// Writes the separator for column `i`; `i` must index a column.
fn push_clause_sep(out: &mut Vec<char>, t: &Table, i: usize)
    requires
        i < t.columns@.len(),
    ensures
        final(out)@ == old(out)@ + clause_sep(t@, i as int),
{
    let last: usize = t.columns.len() - 1;
    let same = str_eq(t.columns[i].name.as_str(), t.columns[last].name.as_str());
    if !same {
        push_str_chars(out, ", ");
    }
    proof {
        assert(out@ =~= old(out)@ + clause_sep(t@, i as int));
    }
}

// ---------------------------------------------------------------------------
// CREATE TABLE / ALTER TABLE / DROP TABLE
// ---------------------------------------------------------------------------

/// The clauses of the first `i` columns, each followed by its separator.
pub open spec fn col_clauses(t: TableV, i: int) -> Seq<char>
    decreases i,
{
    if i <= 0 {
        Seq::empty()
    } else {
        col_clauses(t, i - 1) + col_clause(t.columns[i - 1]) + clause_sep(t, i - 1)
    }
}

/// The `ADD COLUMN` clauses of the first `i` columns.
pub open spec fn add_col_clauses(t: TableV, i: int) -> Seq<char>
    decreases i,
{
    if i <= 0 {
        Seq::empty()
    } else {
        add_col_clauses(t, i - 1) + "ADD COLUMN "@ + col_clause(t.columns[i - 1]) + clause_sep(t, i - 1)
    }
}

/// `s` with every trailing `", "` removed.
pub open spec fn strip_sep(s: Seq<char>) -> Seq<char>
    decreases s.len(),
{
    if s.len() >= 2 && s.subrange(s.len() - 2, s.len() as int) == ", "@ {
        strip_sep(s.take(s.len() - 2))
    } else {
        s
    }
}

pub open spec fn create_stmt(t: TableV) -> Seq<char> {
    "CREATE TABLE "@ + t.name + " ("@ + col_clauses(t, t.columns.len() as int) + ");"@
}

pub open spec fn alter_stmt(t: TableV) -> Seq<char> {
    strip_sep("ALTER TABLE "@ + t.name + " "@ + add_col_clauses(t, t.columns.len() as int)) + ";"@
}

pub open spec fn drop_stmt(t: TableV) -> Seq<char> {
    "DROP TABLE "@ + t.name + ";"@
}

fn render_create(t: &Table) -> (out: Vec<char>)
    ensures
        out@ == create_stmt(t@),
{
    let mut out: Vec<char> = Vec::new();
    push_str_chars(&mut out, "CREATE TABLE ");
    push_string_chars(&mut out, &t.name);
    push_str_chars(&mut out, " (");
    let n: usize = t.columns.len();
    let mut i: usize = 0;
    while i < n
        invariant
            i <= n,
            n == t.columns@.len(),
            out@ =~= "CREATE TABLE "@ + t@.name + " ("@ + col_clauses(t@, i as int),
        decreases n - i,
    {
        push_col_clause(&mut out, &t.columns[i]);
        push_clause_sep(&mut out, t, i);
        proof {
            assert(out@ =~= "CREATE TABLE "@ + t@.name + " ("@ + col_clauses(t@, i + 1));
        }
        i = i + 1;
    }
    push_str_chars(&mut out, ");");
    proof {
        assert(out@ =~= create_stmt(t@));
    }
    out
}

fn render_alter(t: &Table) -> (out: Vec<char>)
    ensures
        out@ == alter_stmt(t@),
{
    let mut out: Vec<char> = Vec::new();
    push_str_chars(&mut out, "ALTER TABLE ");
    push_string_chars(&mut out, &t.name);
    push_str_chars(&mut out, " ");
    let n: usize = t.columns.len();
    let mut i: usize = 0;
    while i < n
        invariant
            i <= n,
            n == t.columns@.len(),
            out@ =~= "ALTER TABLE "@ + t@.name + " "@ + add_col_clauses(t@, i as int),
        decreases n - i,
    {
        push_str_chars(&mut out, "ADD COLUMN ");
        push_col_clause(&mut out, &t.columns[i]);
        push_clause_sep(&mut out, t, i);
        proof {
            assert(out@ =~= "ALTER TABLE "@ + t@.name + " "@ + add_col_clauses(t@, i + 1));
        }
        i = i + 1;
    }
    strip_trailing_sep(&mut out);
    push_str_chars(&mut out, ";");
    proof {
        assert(out@ =~= alter_stmt(t@));
    }
    out
}

/// Removes every trailing `", "` left by the clause separators of an
/// `ALTER TABLE` statement.
fn strip_trailing_sep(out: &mut Vec<char>)
    ensures
        final(out)@ == strip_sep(old(out)@),
{
    loop
        invariant
            strip_sep(old(out)@) == strip_sep(out@),
        ensures
            strip_sep(old(out)@) == out@,
        decreases out@.len(),
    {
        proof {
            reveal_strlit(", ");
        }
        let n: usize = out.len();
        if n >= 2 && out[n - 2] == ',' && out[n - 1] == ' ' {
            proof {
                assert(out@.subrange(out@.len() - 2, out@.len() as int) =~= ", "@);
            }
            let ghost before = out@;
            out.pop();
            out.pop();
            proof {
                assert(out@ =~= before.take(before.len() - 2));
            }
        } else {
            proof {
                if out@.len() >= 2 && out@.subrange(out@.len() - 2, out@.len() as int) == ", "@ {
                    assert((", "@)[0] == ',');
                    assert((", "@)[1] == ' ');
                    assert(out@.subrange(out@.len() - 2, out@.len() as int)[0] == out@[out@.len() - 2]);
                    assert(out@.subrange(out@.len() - 2, out@.len() as int)[1] == out@[out@.len() - 1]);
                    assert(out@[out@.len() - 2] == ',' && out@[out@.len() - 1] == ' ');
                }
                assert(strip_sep(out@) == out@);
            }
            break;
        }
    }
}

// ---------------------------------------------------------------------------
// Value synthesis (INSERT / UPDATE literals)
// ---------------------------------------------------------------------------

/// The fixed pool of quoted names.
pub open spec fn name_pool(p: int) -> Seq<char> {
    if p == 0 { "Alice"@ } else if p == 1 { "Bob"@ } else if p == 2 { "Charlie"@ } else { "David"@ }
}

/// The pool of comparison operators for numeric predicates.
pub open spec fn op_str(op: int) -> Seq<char> {
    if op == 0 { "="@ } else if op == 1 { ">"@ } else if op == 2 { "<"@ }
    else if op == 3 { ">="@ } else { "<="@ }
}

/// One synthesized literal for a column: a quoted pool name for text, the
/// current date for date columns, a fixed-point number when the column has a
/// decimal precision, a plain integer otherwise.
pub open spec fn value_lit(c: ColumnV, d: DrawV, today: Date) -> Seq<char> {
    if is_text_type(c.column_type) {
        "'"@ + name_pool(d.picks[0]) + "'"@
    } else if is_date_type(c.column_type) {
        "to_date('"@ + date_str(today) + "','YYYY-MM-DD')"@
    } else if is_numeric_type(c.column_type) && c.decimal_places is Some {
        decimal_lit(d.val as nat, c.decimal_places->0)
    } else {
        dec_str(d.val as nat)
    }
}

fn push_pool_name(out: &mut Vec<char>, p: u8)
    ensures
        final(out)@ == old(out)@ + name_pool(p as int),
{
    if p == 0 {
        push_str_chars(out, "Alice");
    } else if p == 1 {
        push_str_chars(out, "Bob");
    } else if p == 2 {
        push_str_chars(out, "Charlie");
    } else {
        push_str_chars(out, "David");
    }
}

fn push_value_lit(out: &mut Vec<char>, c: &Column, d: &Draw, today: Date)
    requires
        c@.wf(),
        draw_wf(d@),
        date_wf(today),
    ensures
        final(out)@ == old(out)@ + value_lit(c@, d@, today),
{
    if class_text(&c.column_type) {
        push_str_chars(out, "'");
        push_pool_name(out, d.picks[0]);
        push_str_chars(out, "'");
    } else if class_date(&c.column_type) {
        push_str_chars(out, "to_date('");
        push_date(out, today);
        push_str_chars(out, "','YYYY-MM-DD')");
    } else {
        let numeric = class_numeric(&c.column_type);
        match c.decimal_places {
            Some(dp) if numeric => {
                push_decimal_lit(out, d.val as u64, dp as usize);
            }
            _ => {
                push_u64(out, d.val as u64);
            }
        }
    }
    proof {
        assert(out@ =~= old(out)@ + value_lit(c@, d@, today));
    }
}

// ---------------------------------------------------------------------------
// Predicate synthesis (WHERE clauses)
// ---------------------------------------------------------------------------

/// The fixed base date of `BETWEEN` ranges, advanced by the drawn offset.
pub open spec fn between_start(d: DrawV) -> Date {
    Date { year: 2021, month: 1, day: (1 + d.date_offset) as u32 }
}

/// The end of a `BETWEEN` range: today, unless the start would lie beyond
/// it, in which case the start itself is used so the range stays ordered.
pub open spec fn between_end(d: DrawV, today: Date) -> Date {
    if date_le(between_start(d), today) {
        today
    } else {
        between_start(d)
    }
}

/// The quoted pool names of the first `i` picks, joined with `", "`.
pub open spec fn in_list(picks: Seq<int>, i: int) -> Seq<char>
    decreases i,
{
    if i <= 0 {
        Seq::empty()
    } else {
        in_list(picks, i - 1) + (if i - 1 == 0 { Seq::<char>::empty() } else { ", "@ })
            + "'"@ + name_pool(picks[i - 1]) + "'"@
    }
}

/// The predicate contributed by one column (meaningful when `has_pred`).
pub open spec fn pred_clause(c: ColumnV, d: DrawV, today: Date) -> Seq<char> {
    if is_numeric_type(c.column_type) {
        c.name + " "@ + op_str(d.op) + " "@ + dec_str(d.val as nat)
    } else if is_text_type(c.column_type) {
        c.name + " IN ("@ + in_list(d.picks, d.picks.len() as int) + ")"@
    } else {
        c.name + " BETWEEN to_date('"@ + date_str(between_start(d))
            + "','YYYY-MM-DD') AND to_date('"@ + date_str(between_end(d, today))
            + "','YYYY-MM-DD')"@
    }
}

/// Whether any of the first `i` columns contributes a predicate.
pub open spec fn any_pred_upto(t: TableV, i: int) -> bool {
    exists|j: int| 0 <= j < i && has_pred(#[trigger] t.columns[j])
}

pub open spec fn has_any_pred(t: TableV) -> bool {
    any_pred_upto(t, t.columns.len() as int)
}

/// The predicates of the first `i` columns, joined with `" AND "`; inert
/// columns are skipped.
pub open spec fn where_clauses(t: TableV, ds: Seq<DrawV>, today: Date, i: int) -> Seq<char>
    decreases i,
{
    if i <= 0 {
        Seq::empty()
    } else {
        where_clauses(t, ds, today, i - 1) + (if has_pred(t.columns[i - 1]) {
            (if any_pred_upto(t, i - 1) { " AND "@ } else { Seq::<char>::empty() })
                + pred_clause(t.columns[i - 1], ds[i - 1], today)
        } else {
            Seq::<char>::empty()
        })
    }
}

pub open spec fn where_clause(t: TableV, ds: Seq<DrawV>, today: Date) -> Seq<char> {
    where_clauses(t, ds, today, t.columns.len() as int)
}

/// The WHERE part of a statement; when every column is inert the predicate
/// is empty and the WHERE clause is omitted entirely.
pub open spec fn where_suffix(t: TableV, ds: Seq<DrawV>, today: Date) -> Seq<char> {
    if has_any_pred(t) {
        " WHERE "@ + where_clause(t, ds, today)
    } else {
        Seq::empty()
    }
}

fn push_in_list(out: &mut Vec<char>, d: &Draw)
    requires
        draw_wf(d@),
    ensures
        final(out)@ == old(out)@ + in_list(d@.picks, d@.picks.len() as int),
{
    let n: usize = d.picks.len();
    let mut j: usize = 0;
    while j < n
        invariant
            j <= n,
            n == d.picks@.len(),
            draw_wf(d@),
            out@ =~= old(out)@ + in_list(d@.picks, j as int),
        decreases n - j,
    {
        if j > 0 {
            push_str_chars(out, ", ");
        }
        push_str_chars(out, "'");
        push_pool_name(out, d.picks[j]);
        push_str_chars(out, "'");
        proof {
            assert(d@.picks[j as int] == d.picks@[j as int] as int);
            assert(out@ =~= old(out)@ + in_list(d@.picks, j + 1));
        }
        j = j + 1;
    }
}

fn push_pred_clause(out: &mut Vec<char>, c: &Column, d: &Draw, today: Date)
    requires
        draw_wf(d@),
        date_wf(today),
        has_pred(c@),
    ensures
        final(out)@ == old(out)@ + pred_clause(c@, d@, today),
{
    if class_numeric(&c.column_type) {
        push_string_chars(out, &c.name);
        push_str_chars(out, " ");
        if d.op == 0 {
            push_str_chars(out, "=");
        } else if d.op == 1 {
            push_str_chars(out, ">");
        } else if d.op == 2 {
            push_str_chars(out, "<");
        } else if d.op == 3 {
            push_str_chars(out, ">=");
        } else {
            push_str_chars(out, "<=");
        }
        push_str_chars(out, " ");
        push_u64(out, d.val as u64);
    } else if class_text(&c.column_type) {
        push_string_chars(out, &c.name);
        push_str_chars(out, " IN (");
        push_in_list(out, d);
        push_str_chars(out, ")");
    } else {
        let start = Date { year: 2021, month: 1, day: 1 + (d.date_offset as u32) };
        proof {
            assert(start == between_start(d@));
            assert(date_wf(start));
        }
        let end = if date_le_exec(start, today) { today } else { start };
        push_string_chars(out, &c.name);
        push_str_chars(out, " BETWEEN to_date('");
        push_date(out, start);
        push_str_chars(out, "','YYYY-MM-DD') AND to_date('");
        push_date(out, end);
        push_str_chars(out, "','YYYY-MM-DD')");
    }
    proof {
        assert(out@ =~= old(out)@ + pred_clause(c@, d@, today));
    }
}

/// Builds the joined predicate text and reports whether any column
/// contributed to it.
fn build_where(t: &Table, draws: &Vec<Draw>, today: Date) -> (r: (Vec<char>, bool))
    requires
        draws_wf(draws_view(draws@)),
        draws@.len() == t@.columns.len(),
        date_wf(today),
    ensures
        r.0@ == where_clause(t@, draws_view(draws@), today),
        r.1 == has_any_pred(t@),
{
    let mut out: Vec<char> = Vec::new();
    let mut any: bool = false;
    let n: usize = t.columns.len();
    let mut i: usize = 0;
    while i < n
        invariant
            i <= n,
            n == t.columns@.len(),
            draws_wf(draws_view(draws@)),
            draws@.len() == t@.columns.len(),
            date_wf(today),
            out@ =~= where_clauses(t@, draws_view(draws@), today, i as int),
            any == any_pred_upto(t@, i as int),
        decreases n - i,
    {
        let c = &t.columns[i];
        let contributes = class_numeric(&c.column_type) || class_text(&c.column_type)
            || class_date(&c.column_type);
        proof {
            assert(t@.columns[i as int] == t.columns@[i as int]@);
            assert(contributes == has_pred(t@.columns[i as int]));
        }
        if contributes {
            if any {
                push_str_chars(&mut out, " AND ");
            }
            proof {
                assert(draws_view(draws@)[i as int] == draws@[i as int]@);
                assert(draw_wf(draws_view(draws@)[i as int]));
            }
            push_pred_clause(&mut out, c, &draws[i], today);
            any = true;
            proof {
                assert(has_pred(t@.columns[i as int]));
                assert(any_pred_upto(t@, i + 1));
            }
        } else {
            proof {
                if any_pred_upto(t@, i + 1) {
                    let j = choose|j: int| 0 <= j < i + 1 && has_pred(#[trigger] t@.columns[j]);
                    assert(j < i || j == i);
                    if j == i {
                        assert(false);
                    }
                    assert(any_pred_upto(t@, i as int));
                }
            }
        }
        proof {
            assert(out@ =~= where_clauses(t@, draws_view(draws@), today, i + 1));
        }
        i = i + 1;
    }
    (out, any)
}

// ---------------------------------------------------------------------------
// INSERT / SELECT / UPDATE / DELETE
// ---------------------------------------------------------------------------

/// The names of the first `i` columns, joined with `", "`.
pub open spec fn names_list(t: TableV, i: int) -> Seq<char>
    decreases i,
{
    if i <= 0 {
        Seq::empty()
    } else {
        names_list(t, i - 1) + (if i - 1 == 0 { Seq::<char>::empty() } else { ", "@ })
            + t.columns[i - 1].name
    }
}

/// One synthesized literal per column, joined with `", "`.
pub open spec fn values_list(t: TableV, ds: Seq<DrawV>, today: Date, i: int) -> Seq<char>
    decreases i,
{
    if i <= 0 {
        Seq::empty()
    } else {
        values_list(t, ds, today, i - 1) + (if i - 1 == 0 { Seq::<char>::empty() } else { ", "@ })
            + value_lit(t.columns[i - 1], ds[i - 1], today)
    }
}

/// One `column = literal` pair per column, joined with `", "`.
pub open spec fn assigns_list(t: TableV, ds: Seq<DrawV>, today: Date, i: int) -> Seq<char>
    decreases i,
{
    if i <= 0 {
        Seq::empty()
    } else {
        assigns_list(t, ds, today, i - 1) + (if i - 1 == 0 { Seq::<char>::empty() } else { ", "@ })
            + t.columns[i - 1].name + " = "@ + value_lit(t.columns[i - 1], ds[i - 1], today)
    }
}

pub open spec fn insert_stmt(t: TableV, ds: Seq<DrawV>, today: Date) -> Seq<char> {
    "INSERT INTO "@ + t.name + " ("@ + names_list(t, t.columns.len() as int)
        + ") VALUES ("@ + values_list(t, ds, today, t.columns.len() as int) + ");"@
}

pub open spec fn select_stmt(t: TableV, ds: Seq<DrawV>, today: Date) -> Seq<char> {
    "SELECT "@ + names_list(t, t.columns.len() as int) + " FROM "@ + t.name
        + where_suffix(t, ds, today) + ";"@
}

pub open spec fn update_stmt(t: TableV, ds: Seq<DrawV>, today: Date) -> Seq<char> {
    "UPDATE "@ + t.name + " SET "@ + assigns_list(t, ds, today, t.columns.len() as int)
        + where_suffix(t, ds, today) + ";"@
}

pub open spec fn delete_stmt(t: TableV, ds: Seq<DrawV>, today: Date) -> Seq<char> {
    "DELETE FROM "@ + t.name + where_suffix(t, ds, today) + ";"@
}

fn push_names_list(out: &mut Vec<char>, t: &Table)
    ensures
        final(out)@ == old(out)@ + names_list(t@, t@.columns.len() as int),
{
    let n: usize = t.columns.len();
    let mut i: usize = 0;
    while i < n
        invariant
            i <= n,
            n == t.columns@.len(),
            out@ =~= old(out)@ + names_list(t@, i as int),
        decreases n - i,
    {
        if i > 0 {
            push_str_chars(out, ", ");
        }
        push_string_chars(out, &t.columns[i].name);
        proof {
            assert(t@.columns[i as int] == t.columns@[i as int]@);
            assert(out@ =~= old(out)@ + names_list(t@, i + 1));
        }
        i = i + 1;
    }
}

fn render_insert(t: &Table, draws: &Vec<Draw>, today: Date) -> (out: Vec<char>)
    requires
        t@.wf(),
        draws_wf(draws_view(draws@)),
        draws@.len() == t@.columns.len(),
        date_wf(today),
    ensures
        out@ == insert_stmt(t@, draws_view(draws@), today),
{
    let mut out: Vec<char> = Vec::new();
    push_str_chars(&mut out, "INSERT INTO ");
    push_string_chars(&mut out, &t.name);
    push_str_chars(&mut out, " (");
    push_names_list(&mut out, t);
    push_str_chars(&mut out, ") VALUES (");
    let n: usize = t.columns.len();
    let mut i: usize = 0;
    while i < n
        invariant
            i <= n,
            n == t.columns@.len(),
            t@.wf(),
            draws_wf(draws_view(draws@)),
            draws@.len() == t@.columns.len(),
            date_wf(today),
            out@ =~= "INSERT INTO "@ + t@.name + " ("@ + names_list(t@, t@.columns.len() as int)
                + ") VALUES ("@ + values_list(t@, draws_view(draws@), today, i as int),
        decreases n - i,
    {
        if i > 0 {
            push_str_chars(&mut out, ", ");
        }
        proof {
            assert(t@.columns[i as int] == t.columns@[i as int]@);
            assert(draws_view(draws@)[i as int] == draws@[i as int]@);
        }
        push_value_lit(&mut out, &t.columns[i], &draws[i], today);
        proof {
            assert(out@ =~= "INSERT INTO "@ + t@.name + " ("@ + names_list(t@, t@.columns.len() as int)
                + ") VALUES ("@ + values_list(t@, draws_view(draws@), today, i + 1));
        }
        i = i + 1;
    }
    push_str_chars(&mut out, ");");
    proof {
        assert(out@ =~= insert_stmt(t@, draws_view(draws@), today));
    }
    out
}

fn render_select(t: &Table, draws: &Vec<Draw>, today: Date) -> (out: Vec<char>)
    requires
        draws_wf(draws_view(draws@)),
        draws@.len() == t@.columns.len(),
        date_wf(today),
    ensures
        out@ == select_stmt(t@, draws_view(draws@), today),
{
    let mut out: Vec<char> = Vec::new();
    push_str_chars(&mut out, "SELECT ");
    push_names_list(&mut out, t);
    push_str_chars(&mut out, " FROM ");
    push_string_chars(&mut out, &t.name);
    let (pred, any) = build_where(t, draws, today);
    if any {
        push_str_chars(&mut out, " WHERE ");
        push_all(&mut out, &pred);
    }
    push_str_chars(&mut out, ";");
    proof {
        assert(out@ =~= select_stmt(t@, draws_view(draws@), today));
    }
    out
}

/// Appends all of `src` to `out`.
fn push_all(out: &mut Vec<char>, src: &Vec<char>)
    ensures
        final(out)@ == old(out)@ + src@,
{
    let m: usize = src.len();
    let mut k: usize = 0;
    while k < m
        invariant
            k <= m,
            m == src@.len(),
            out@ =~= old(out)@ + src@.subrange(0, k as int),
        decreases m - k,
    {
        out.push(src[k]);
        k = k + 1;
    }
    proof {
        assert(src@.subrange(0, src@.len() as int) =~= src@);
    }
}

fn render_update(t: &Table, draws: &Vec<Draw>, today: Date) -> (out: Vec<char>)
    requires
        t@.wf(),
        draws_wf(draws_view(draws@)),
        draws@.len() == t@.columns.len(),
        date_wf(today),
    ensures
        out@ == update_stmt(t@, draws_view(draws@), today),
{
    let mut out: Vec<char> = Vec::new();
    push_str_chars(&mut out, "UPDATE ");
    push_string_chars(&mut out, &t.name);
    push_str_chars(&mut out, " SET ");
    let n: usize = t.columns.len();
    let mut i: usize = 0;
    while i < n
        invariant
            i <= n,
            n == t.columns@.len(),
            t@.wf(),
            draws_wf(draws_view(draws@)),
            draws@.len() == t@.columns.len(),
            date_wf(today),
            out@ =~= "UPDATE "@ + t@.name + " SET "@
                + assigns_list(t@, draws_view(draws@), today, i as int),
        decreases n - i,
    {
        if i > 0 {
            push_str_chars(&mut out, ", ");
        }
        proof {
            assert(t@.columns[i as int] == t.columns@[i as int]@);
            assert(draws_view(draws@)[i as int] == draws@[i as int]@);
        }
        push_string_chars(&mut out, &t.columns[i].name);
        push_str_chars(&mut out, " = ");
        push_value_lit(&mut out, &t.columns[i], &draws[i], today);
        proof {
            assert(out@ =~= "UPDATE "@ + t@.name + " SET "@
                + assigns_list(t@, draws_view(draws@), today, i + 1));
        }
        i = i + 1;
    }
    let (pred, any) = build_where(t, draws, today);
    if any {
        push_str_chars(&mut out, " WHERE ");
        push_all(&mut out, &pred);
    }
    push_str_chars(&mut out, ";");
    proof {
        assert(out@ =~= update_stmt(t@, draws_view(draws@), today));
    }
    out
}

fn render_delete(t: &Table, draws: &Vec<Draw>, today: Date) -> (out: Vec<char>)
    requires
        draws_wf(draws_view(draws@)),
        draws@.len() == t@.columns.len(),
        date_wf(today),
    ensures
        out@ == delete_stmt(t@, draws_view(draws@), today),
{
    let mut out: Vec<char> = Vec::new();
    push_str_chars(&mut out, "DELETE FROM ");
    push_string_chars(&mut out, &t.name);
    let (pred, any) = build_where(t, draws, today);
    if any {
        push_str_chars(&mut out, " WHERE ");
        push_all(&mut out, &pred);
    }
    push_str_chars(&mut out, ";");
    proof {
        assert(out@ =~= delete_stmt(t@, draws_view(draws@), today));
    }
    out
}

// ---------------------------------------------------------------------------
// Dispatch and the randomized entry points
// ---------------------------------------------------------------------------

/// The statement rendered for a table, kind, per-column draws, and date.
pub open spec fn generate_spec(t: TableV, sql_type: SqlType, ds: Seq<DrawV>, today: Date) -> Seq<char> {
    match sql_type {
        SqlType::CreateTable => create_stmt(t),
        SqlType::AlterTable => alter_stmt(t),
        SqlType::DropTable => drop_stmt(t),
        SqlType::Insert => insert_stmt(t, ds, today),
        SqlType::Select => select_stmt(t, ds, today),
        SqlType::Update => update_stmt(t, ds, today),
        SqlType::Delete => delete_stmt(t, ds, today),
    }
}

/// Relies on rand: `Rng::gen_range` over `0..n` returns a value of that
/// non-empty range.
#[verifier::external_body]
fn random_below(n: u64) -> (r: u64)
    requires
        n >= 1,
    ensures
        r < n,
{
    rand::thread_rng().gen_range(0..n)
}

/// One column's worth of random choices, drawn from the process-wide
/// generator.
fn random_draw() -> (d: Draw)
    ensures
        draw_wf(d@),
{
    let op: u8 = random_below(5) as u8;
    let val: u8 = (1 + random_below(99)) as u8;
    let k: u64 = 2 + random_below(9);
    let mut picks: Vec<u8> = Vec::new();
    let mut j: u64 = 0;
    while j < k
        invariant
            j <= k,
            k <= 10,
            picks@.len() == j,
            forall|m: int| 0 <= m < picks@.len() ==> #[trigger] picks@[m] < 4,
        decreases k - j,
    {
        picks.push(random_below(4) as u8);
        j = j + 1;
    }
    let date_offset: u8 = random_below(3) as u8;
    let d = Draw { op, val, picks, date_offset };
    proof {
        assert forall|m: int| 0 <= m < d@.picks.len() implies 0 <= #[trigger] d@.picks[m] < 4 by {
            assert(d@.picks[m] == d.picks@[m] as int);
        }
    }
    d
}

/// One draw per column.
fn random_draws(n: usize) -> (ds: Vec<Draw>)
    ensures
        ds@.len() == n,
        draws_wf(draws_view(ds@)),
{
    let mut ds: Vec<Draw> = Vec::new();
    let mut i: usize = 0;
    while i < n
        invariant
            i <= n,
            ds@.len() == i,
            draws_wf(draws_view(ds@)),
        decreases n - i,
    {
        let d = random_draw();
        let ghost before = ds@;
        ds.push(d);
        proof {
            assert(draws_view(ds@) =~= draws_view(before).push(d@));
            assert forall|m: int| 0 <= m < draws_view(ds@).len()
                implies draw_wf(#[trigger] draws_view(ds@)[m]) by {
                if m < before.len() {
                    assert(draws_view(ds@)[m] == draws_view(before)[m]);
                }
            }
        }
        i = i + 1;
    }
    ds
}

impl Table {
    /// Renders one statement of the requested kind from explicitly supplied
    /// per-column draws and date. This is the deterministic core: the result
    /// is exactly `generate_spec` of the arguments.
    pub fn generate_with(&self, sql_type: SqlType, draws: &Vec<Draw>, today: Date) -> (r: String)
        requires
            self@.wf(),
            draws_wf(draws_view(draws@)),
            draws@.len() == self@.columns.len(),
            date_wf(today),
        ensures
            r@ == generate_spec(self@, sql_type, draws_view(draws@), today),
    {
        let out: Vec<char> = match sql_type {
            SqlType::CreateTable => render_create(self),
            SqlType::AlterTable => render_alter(self),
            SqlType::DropTable => render_drop(self),
            SqlType::Insert => render_insert(self, draws, today),
            SqlType::Select => render_select(self, draws, today),
            SqlType::Update => render_update(self, draws, today),
            SqlType::Delete => render_delete(self, draws, today),
        };
        chars_to_string(&out)
    }

    /// The joined predicate text for explicitly supplied draws and date:
    /// exactly `where_clause` of the arguments.
    pub fn generate_where_clause_with(&self, draws: &Vec<Draw>, today: Date) -> (r: String)
        requires
            draws_wf(draws_view(draws@)),
            draws@.len() == self@.columns.len(),
            date_wf(today),
        ensures
            r@ == where_clause(self@, draws_view(draws@), today),
    {
        let (pred, _any) = build_where(self, draws, today);
        chars_to_string(&pred)
    }

    /// Renders one statement of the requested kind, drawing the randomized
    /// choices from the process-wide generator and the date from the clock.
    /// Whatever was drawn, the result is `generate_spec` for some
    /// well-formed draws and date; the three data-free kinds are rendered
    /// the same way on every call.
    pub fn generate(&self, sql_type: SqlType) -> (r: String)
        requires
            self@.wf(),
        ensures
            exists|ds: Seq<DrawV>, today: Date|
                draws_wf(ds) && ds.len() == self@.columns.len() && date_wf(today)
                    && r@ == #[trigger] generate_spec(self@, sql_type, ds, today),
            sql_type is CreateTable ==> r@ == create_stmt(self@),
            sql_type is AlterTable ==> r@ == alter_stmt(self@),
            sql_type is DropTable ==> r@ == drop_stmt(self@),
    {
        let ds = random_draws(self.columns.len());
        let today = current_date();
        let r = self.generate_with(sql_type, &ds, today);
        proof {
            let dsv = draws_view(ds@);
            assert(draws_wf(dsv) && dsv.len() == self@.columns.len() && date_wf(today)
                && r@ == generate_spec(self@, sql_type, dsv, today));
        }
        r
    }

    /// The joined predicate text over all columns, with randomized
    /// operators, values and ranges. Whatever was drawn, the result is
    /// `where_clause` for some well-formed draws and date.
    pub fn generate_where_clause(&self) -> (r: String)
        ensures
            exists|ds: Seq<DrawV>, today: Date|
                draws_wf(ds) && ds.len() == self@.columns.len() && date_wf(today)
                    && r@ == #[trigger] where_clause(self@, ds, today),
    {
        let ds = random_draws(self.columns.len());
        let today = current_date();
        let r = self.generate_where_clause_with(&ds, today);
        proof {
            let dsv = draws_view(ds@);
            assert(draws_wf(dsv) && dsv.len() == self@.columns.len() && date_wf(today)
                && r@ == where_clause(self@, dsv, today));
        }
        r
    }
}

// ---------------------------------------------------------------------------
// Laws
// ---------------------------------------------------------------------------

proof fn lemma_numeric_not_text_or_date(t: Seq<char>)
    requires
        is_numeric_type(t),
    ensures
        !is_text_type(t),
        !is_date_type(t),
{
    reveal_strlit("int");
    reveal_strlit("number");
    reveal_strlit("varchar");
    reveal_strlit("text");
    reveal_strlit("date");
    reveal_strlit("datetime");
    assert(("int"@).len() == 3);
    assert(("number"@).len() == 6);
    assert(("varchar"@).len() == 7);
    assert(("text"@).len() == 4);
    assert(("date"@).len() == 4);
    assert(("datetime"@).len() == 8);
}

/// Precision law: the value literal synthesized for a numeric column with
/// decimal precision `p` has exactly `p` digits after its decimal point;
/// with `p == 0` it has no decimal point at all, only digits.
pub proof fn lemma_value_literal_precision(c: ColumnV, d: DrawV, today: Date)
    requires
        c.wf(),
        draw_wf(d),
        is_numeric_type(c.column_type),
        c.decimal_places is Some,
    ensures
        value_lit(c, d, today) == decimal_lit(d.val as nat, c.decimal_places->0),
        c.decimal_places->0 == 0 ==> forall|j: int| 0 <= j < value_lit(c, d, today).len()
            ==> crate::text::is_digit_char(#[trigger] value_lit(c, d, today)[j]),
        c.decimal_places->0 >= 1 ==> ({
            let s = value_lit(c, d, today);
            let i = dec_str((d.val as nat) / crate::numfmt::pow10(c.decimal_places->0)).len() as int;
            &&& 0 <= i < s.len()
            &&& s[i] == '.'
            &&& s.len() - i - 1 == c.decimal_places->0
            &&& forall|j: int| i < j < s.len() ==> crate::text::is_digit_char(#[trigger] s[j])
            &&& forall|j: int| 0 <= j < i ==> crate::text::is_digit_char(#[trigger] s[j])
        }),
{
    lemma_numeric_not_text_or_date(c.column_type);
    crate::numfmt::lemma_decimal_lit_precision(d.val as nat, c.decimal_places->0);
}

/// Statement-shape law: every rendered SELECT is the keyword `SELECT`, the
/// full column-name list, `FROM`, the table name, a WHERE part present
/// exactly when some column synthesizes a predicate, and a final semicolon.
pub proof fn lemma_select_well_formed(t: TableV, ds: Seq<DrawV>, today: Date)
    ensures
        select_stmt(t, ds, today) == "SELECT "@ + names_list(t, t.columns.len() as int)
            + " FROM "@ + t.name + where_suffix(t, ds, today) + ";"@,
        select_stmt(t, ds, today).len() > 7,
        select_stmt(t, ds, today).subrange(0, 7) == "SELECT "@,
        select_stmt(t, ds, today).last() == ';',
        has_any_pred(t) ==> where_suffix(t, ds, today) == " WHERE "@ + where_clause(t, ds, today),
        !has_any_pred(t) ==> where_suffix(t, ds, today) == Seq::<char>::empty(),
{
    reveal_strlit("SELECT ");
    reveal_strlit(";");
    let s = select_stmt(t, ds, today);
    assert(s.len() > 7);
    assert forall|k: int| 0 <= k < 7 implies s[k] == ("SELECT "@)[k] by {
    }
    assert(s.subrange(0, 7) =~= "SELECT "@);
    assert(s.last() == ';');
}

/// Determinism law: rendering is a pure function of the table, the
/// statement kind, the per-column draws and the date, so two calls with
/// equal (for instance, identically seeded) inputs yield the same text.
pub proof fn lemma_generate_deterministic(
    t1: TableV, k1: SqlType, ds1: Seq<DrawV>, d1: Date,
    t2: TableV, k2: SqlType, ds2: Seq<DrawV>, d2: Date,
)
    requires
        t1 == t2,
        k1 == k2,
        ds1 == ds2,
        d1 == d2,
    ensures
        generate_spec(t1, k1, ds1, d1) == generate_spec(t2, k2, ds2, d2),
{
}

/// Date-range law: the start of every synthesized BETWEEN range is never
/// later than its end.
pub proof fn lemma_between_ordered(d: DrawV, today: Date)
    requires
        draw_wf(d),
        date_wf(today),
    ensures
        date_wf(between_start(d)),
        date_wf(between_end(d, today)),
        date_le(between_start(d), between_end(d, today)),
{
}

fn render_drop(t: &Table) -> (out: Vec<char>)
    ensures
        out@ == drop_stmt(t@),
{
    let mut out: Vec<char> = Vec::new();
    push_str_chars(&mut out, "DROP TABLE ");
    push_string_chars(&mut out, &t.name);
    push_str_chars(&mut out, ";");
    proof {
        assert(out@ =~= drop_stmt(t@));
    }
    out
}

} // verus!
