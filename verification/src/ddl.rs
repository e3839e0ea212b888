//! The DDL parser: one `create table` string becomes a [`Table`]. The input
//! is lower-cased and trimmed; the text between the first `(` and the last
//! `)` is the column body. Inside the body a decimal-precision argument such
//! as `number(10, 2)` hides a comma that must not be mistaken for a column
//! separator, so digit pairs joined by a comma are first rewritten to
//! `digits.digits`; only then is the body split on commas, one chunk per
//! column. Each chunk is split on whitespace: the first token is the column
//! name; the second is the type descriptor, decomposed into letter and digit
//! runs (type, width, decimal precision); `primary` and `key` tokens mark
//! the primary key, and a `references` token introduces the foreign key.

use vstd::prelude::*;
use crate::schema::{Table, Column, TableV, ColumnV, opt_str_view, opt_int_view};
use crate::text::{
    is_ws_char, is_digit_char, is_letter_char, lower_char, lower_seq, trim_seq, views,
    is_ws, is_digit, is_letter, to_lower, str_to_chars, chars_to_string, vec_subrange,
    trim_chars, ws_run_end, str_eq,
};

verus! {

/// How a DDL string can be malformed.
#[derive(Copy, Clone, Debug, PartialEq, Eq, Structural)]
pub enum DdlError {
    /// The input does not start with `create table `.
    MissingCreateTable,
    /// No `(` opens a column list after the table name.
    MissingColumnList,
    /// No `)` closes the column list.
    UnterminatedColumnList,
    /// A column chunk has fewer than two whitespace-separated tokens, so
    /// there is no name/type pair to read.
    BadColumnDef,
}

// ---------------------------------------------------------------------------
// Scanning primitives
// ---------------------------------------------------------------------------

/// First index at or after `i` holding `c`, or the length if there is none.
pub open spec fn find_from(s: Seq<char>, c: char, i: int) -> int
    decreases s.len() - i,
{
    if i >= s.len() {
        s.len() as int
    } else if s[i] == c {
        i
    } else {
        find_from(s, c, i + 1)
    }
}

/// Last index below `j` holding `c`, or -1 if there is none.
pub open spec fn rfind_before(s: Seq<char>, c: char, j: int) -> int
    decreases j,
{
    if j <= 0 {
        -1
    } else if s[j - 1] == c {
        j - 1
    } else {
        rfind_before(s, c, j - 1)
    }
}

/// Index just past the digit run starting at `i`.
pub open spec fn digit_run_end(s: Seq<char>, i: int) -> int
    decreases s.len() - i,
{
    if 0 <= i < s.len() && is_digit_char(s[i]) {
        digit_run_end(s, i + 1)
    } else {
        i
    }
}

/// Index just past the letter run starting at `i`.
pub open spec fn letter_run_end(s: Seq<char>, i: int) -> int
    decreases s.len() - i,
{
    if 0 <= i < s.len() && is_letter_char(s[i]) {
        letter_run_end(s, i + 1)
    } else {
        i
    }
}

/// Index just past the non-whitespace run starting at `i`.
pub open spec fn nonws_run_end(s: Seq<char>, i: int) -> int
    decreases s.len() - i,
{
    if 0 <= i < s.len() && !is_ws_char(s[i]) {
        nonws_run_end(s, i + 1)
    } else {
        i
    }
}

pub proof fn lemma_find_from_bounds(s: Seq<char>, c: char, i: int)
    requires
        0 <= i <= s.len(),
    ensures
        i <= find_from(s, c, i) <= s.len(),
    decreases s.len() - i,
{
    if i < s.len() && s[i] != c {
        lemma_find_from_bounds(s, c, i + 1);
    }
}

pub proof fn lemma_digit_run_end_bounds(s: Seq<char>, i: int)
    requires
        0 <= i <= s.len(),
    ensures
        i <= digit_run_end(s, i) <= s.len(),
        i < s.len() && is_digit_char(s[i]) ==> digit_run_end(s, i) > i,
    decreases s.len() - i,
{
    if i < s.len() && is_digit_char(s[i]) {
        lemma_digit_run_end_bounds(s, i + 1);
    }
}

pub proof fn lemma_letter_run_end_bounds(s: Seq<char>, i: int)
    requires
        0 <= i <= s.len(),
    ensures
        i <= letter_run_end(s, i) <= s.len(),
        i < s.len() && is_letter_char(s[i]) ==> letter_run_end(s, i) > i,
    decreases s.len() - i,
{
    if i < s.len() && is_letter_char(s[i]) {
        lemma_letter_run_end_bounds(s, i + 1);
    }
}

pub proof fn lemma_nonws_run_end_bounds(s: Seq<char>, i: int)
    requires
        0 <= i <= s.len(),
    ensures
        i <= nonws_run_end(s, i) <= s.len(),
        i < s.len() && !is_ws_char(s[i]) ==> nonws_run_end(s, i) > i,
    decreases s.len() - i,
{
    if i < s.len() && !is_ws_char(s[i]) {
        lemma_nonws_run_end_bounds(s, i + 1);
    }
}

pub proof fn lemma_ws_run_end_bounds(s: Seq<char>, i: int)
    requires
        0 <= i <= s.len(),
    ensures
        i <= ws_run_end(s, i) <= s.len(),
    decreases s.len() - i,
{
    if i < s.len() && is_ws_char(s[i]) {
        lemma_ws_run_end_bounds(s, i + 1);
    }
}

// ---------------------------------------------------------------------------
// The precision-comma rewrite
// ---------------------------------------------------------------------------

/// The column body with every `digits , digits` occurrence rewritten to
/// `digits.digits`, scanning left to right without overlap, exactly as a
/// substitution of that pattern would. This keeps a decimal-precision
/// argument from being split apart as if the comma separated two columns.
pub open spec fn rewrite_from(s: Seq<char>, i: int) -> Seq<char>
    decreases s.len() - i,
    via rewrite_from_decreases
{
    if i < 0 || i >= s.len() {
        Seq::empty()
    } else if is_digit_char(s[i]) {
        let j = digit_run_end(s, i);
        let k = ws_run_end(s, j);
        if k < s.len() && s[k] == ',' {
            let m = ws_run_end(s, k + 1);
            if m < s.len() && is_digit_char(s[m]) {
                let e = digit_run_end(s, m);
                s.subrange(i, j) + seq!['.'] + s.subrange(m, e) + rewrite_from(s, e)
            } else {
                s.subrange(i, j) + rewrite_from(s, j)
            }
        } else {
            s.subrange(i, j) + rewrite_from(s, j)
        }
    } else {
        seq![s[i]] + rewrite_from(s, i + 1)
    }
}

#[via_fn]
proof fn rewrite_from_decreases(s: Seq<char>, i: int) {
    if 0 <= i < s.len() && is_digit_char(s[i]) {
        lemma_digit_run_end_bounds(s, i);
        let j = digit_run_end(s, i);
        lemma_ws_run_end_bounds(s, j);
        let k = ws_run_end(s, j);
        if k < s.len() && s[k] == ',' {
            lemma_ws_run_end_bounds(s, k + 1);
            let m = ws_run_end(s, k + 1);
            if m < s.len() && is_digit_char(s[m]) {
                lemma_digit_run_end_bounds(s, m);
            }
        }
    }
}

pub open spec fn rewrite_precision(s: Seq<char>) -> Seq<char> {
    rewrite_from(s, 0)
}

// ---------------------------------------------------------------------------
// Splitting: comma chunks and whitespace tokens
// ---------------------------------------------------------------------------

/// The chunks of `s` from position `i` on, split at every comma. A string
/// without commas is one chunk; a trailing comma contributes an empty chunk.
pub open spec fn split_commas_from(s: Seq<char>, i: int) -> Seq<Seq<char>>
    decreases s.len() - i,
    via split_commas_from_decreases
{
    if i < 0 {
        Seq::empty()
    } else {
        let j = find_from(s, ',', i);
        if j >= s.len() {
            seq![s.subrange(i, s.len() as int)]
        } else {
            seq![s.subrange(i, j)] + split_commas_from(s, j + 1)
        }
    }
}

#[via_fn]
proof fn split_commas_from_decreases(s: Seq<char>, i: int) {
    if 0 <= i <= s.len() {
        lemma_find_from_bounds(s, ',', i);
    }
}

pub open spec fn split_commas(s: Seq<char>) -> Seq<Seq<char>> {
    split_commas_from(s, 0)
}

/// The whitespace-separated tokens of `s` from position `i` on; empty
/// tokens do not occur.
pub open spec fn ws_tokens_from(s: Seq<char>, i: int) -> Seq<Seq<char>>
    decreases s.len() - i,
    via ws_tokens_from_decreases
{
    if i < 0 || i >= s.len() {
        Seq::empty()
    } else if is_ws_char(s[i]) {
        ws_tokens_from(s, i + 1)
    } else {
        let j = nonws_run_end(s, i);
        seq![s.subrange(i, j)] + ws_tokens_from(s, j)
    }
}

#[via_fn]
proof fn ws_tokens_from_decreases(s: Seq<char>, i: int) {
    if 0 <= i < s.len() && !is_ws_char(s[i]) {
        lemma_nonws_run_end_bounds(s, i);
    }
}

pub open spec fn ws_tokens(s: Seq<char>) -> Seq<Seq<char>> {
    ws_tokens_from(s, 0)
}

/// The alternating letter runs and digit runs of a type descriptor, in
/// order; other characters separate runs and are dropped.
pub open spec fn runs_from(s: Seq<char>, i: int) -> Seq<Seq<char>>
    decreases s.len() - i,
    via runs_from_decreases
{
    if i < 0 || i >= s.len() {
        Seq::empty()
    } else if is_letter_char(s[i]) {
        let j = letter_run_end(s, i);
        seq![s.subrange(i, j)] + runs_from(s, j)
    } else if is_digit_char(s[i]) {
        let j = digit_run_end(s, i);
        seq![s.subrange(i, j)] + runs_from(s, j)
    } else {
        runs_from(s, i + 1)
    }
}

#[via_fn]
proof fn runs_from_decreases(s: Seq<char>, i: int) {
    if 0 <= i < s.len() {
        if is_letter_char(s[i]) {
            lemma_letter_run_end_bounds(s, i);
        } else if is_digit_char(s[i]) {
            lemma_digit_run_end_bounds(s, i);
        }
    }
}

pub open spec fn runs(s: Seq<char>) -> Seq<Seq<char>> {
    runs_from(s, 0)
}

// ---------------------------------------------------------------------------
// Numeric tokens
// ---------------------------------------------------------------------------

pub open spec fn digit_of(c: char) -> int {
    if c == '0' { 0 } else if c == '1' { 1 } else if c == '2' { 2 }
    else if c == '3' { 3 } else if c == '4' { 4 } else if c == '5' { 5 }
    else if c == '6' { 6 } else if c == '7' { 7 } else if c == '8' { 8 }
    else { 9 }
}

/// The value of a digit string read in base ten.
pub open spec fn digits_val(s: Seq<char>) -> nat
    decreases s.len(),
{
    if s.len() == 0 {
        0
    } else {
        digits_val(s.drop_last()) * 10 + digit_of(s.last()) as nat
    }
}

pub open spec fn all_digits(s: Seq<char>) -> bool {
    forall|k: int| 0 <= k < s.len() ==> is_digit_char(#[trigger] s[k])
}

/// What `str::parse::<i32>` yields on a run: the value when the run is all
/// digits and fits, nothing otherwise.
pub open spec fn parse_i32_opt(s: Seq<char>) -> Option<int> {
    if s.len() > 0 && all_digits(s) && digits_val(s) <= i32::MAX {
        Some(digits_val(s) as int)
    } else {
        None
    }
}

proof fn lemma_digits_val_prefix(s: Seq<char>, i: int)
    requires
        0 <= i <= s.len(),
    ensures
        digits_val(s.subrange(0, i)) <= digits_val(s),
    decreases s.len() - i,
{
    if i < s.len() {
        lemma_digits_val_prefix(s, i + 1);
        assert(s.subrange(0, i + 1).drop_last() =~= s.subrange(0, i));
        assert(digits_val(s.subrange(0, i)) <= digits_val(s.subrange(0, i + 1)));
    } else {
        assert(s.subrange(0, i) =~= s);
    }
}

fn exec_digit_of(c: char) -> (d: u64)
    ensures
        d == digit_of(c),
        d <= 9,
{
    if c == '0' { 0 } else if c == '1' { 1 } else if c == '2' { 2 }
    else if c == '3' { 3 } else if c == '4' { 4 } else if c == '5' { 5 }
    else if c == '6' { 6 } else if c == '7' { 7 } else if c == '8' { 8 }
    else { 9 }
}

/// Reads a run as an `i32` the way `str::parse` would.
fn parse_i32_chars(run: &Vec<char>) -> (r: Option<i32>)
    ensures
        opt_int_view(r) == parse_i32_opt(run@),
{
    let n: usize = run.len();
    if n == 0 {
        return None;
    }
    let mut val: u64 = 0;
    let mut i: usize = 0;
    while i < n
        invariant
            i <= n,
            n == run@.len(),
            forall|k: int| 0 <= k < i ==> is_digit_char(#[trigger] run@[k]),
            val == digits_val(run@.subrange(0, i as int)),
            val <= i32::MAX as u64,
        decreases n - i,
    {
        let c = run[i];
        if !is_digit(c) {
            return None;
        }
        let d = exec_digit_of(c);
        proof {
            assert(run@.subrange(0, i + 1).drop_last() =~= run@.subrange(0, i as int));
            assert(run@.subrange(0, i + 1).last() == run@[i as int]);
        }
        val = val * 10 + d;
        if val > i32::MAX as u64 {
            proof {
                lemma_digits_val_prefix(run@, i + 1);
            }
            return None;
        }
        i = i + 1;
    }
    proof {
        assert(run@.subrange(0, n as int) =~= run@);
    }
    Some(val as i32)
}

// ---------------------------------------------------------------------------
// Executable scanners
// ---------------------------------------------------------------------------

fn find_char_from(v: &Vec<char>, c: char, from: usize) -> (r: usize)
    requires
        from <= v@.len(),
    ensures
        r == find_from(v@, c, from as int),
        from <= r <= v@.len(),
        r < v@.len() ==> v@[r as int] == c,
    decreases v@.len() - from,
{
    let n: usize = v.len();
    let mut i: usize = from;
    while i < n && v[i] != c
        invariant
            from <= i <= n,
            n == v@.len(),
            find_from(v@, c, from as int) == find_from(v@, c, i as int),
        decreases n - i,
    {
        i = i + 1;
    }
    i
}

fn rfind_char(v: &Vec<char>, c: char) -> (r: Option<usize>)
    ensures
        match r {
            Some(k) => rfind_before(v@, c, v@.len() as int) == k as int && k < v@.len(),
            None => rfind_before(v@, c, v@.len() as int) == -1,
        },
{
    let n: usize = v.len();
    let mut j: usize = n;
    while j > 0
        invariant
            j <= n,
            n == v@.len(),
            rfind_before(v@, c, n as int) == rfind_before(v@, c, j as int),
        decreases j,
    {
        if v[j - 1] == c {
            return Some(j - 1);
        }
        j = j - 1;
    }
    None
}

fn digit_end(v: &Vec<char>, from: usize) -> (r: usize)
    requires
        from <= v@.len(),
    ensures
        r == digit_run_end(v@, from as int),
        from <= r <= v@.len(),
{
    let n: usize = v.len();
    let mut i: usize = from;
    while i < n && is_digit(v[i])
        invariant
            from <= i <= n,
            n == v@.len(),
            digit_run_end(v@, from as int) == digit_run_end(v@, i as int),
        decreases n - i,
    {
        i = i + 1;
    }
    i
}

fn letter_end(v: &Vec<char>, from: usize) -> (r: usize)
    requires
        from <= v@.len(),
    ensures
        r == letter_run_end(v@, from as int),
        from <= r <= v@.len(),
{
    let n: usize = v.len();
    let mut i: usize = from;
    while i < n && is_letter(v[i])
        invariant
            from <= i <= n,
            n == v@.len(),
            letter_run_end(v@, from as int) == letter_run_end(v@, i as int),
        decreases n - i,
    {
        i = i + 1;
    }
    i
}

fn nonws_end(v: &Vec<char>, from: usize) -> (r: usize)
    requires
        from <= v@.len(),
    ensures
        r == nonws_run_end(v@, from as int),
        from <= r <= v@.len(),
{
    let n: usize = v.len();
    let mut i: usize = from;
    while i < n && !is_ws(v[i])
        invariant
            from <= i <= n,
            n == v@.len(),
            nonws_run_end(v@, from as int) == nonws_run_end(v@, i as int),
        decreases n - i,
    {
        i = i + 1;
    }
    i
}

fn ws_end(v: &Vec<char>, from: usize) -> (r: usize)
    requires
        from <= v@.len(),
    ensures
        r == ws_run_end(v@, from as int),
        from <= r <= v@.len(),
{
    let n: usize = v.len();
    let mut i: usize = from;
    while i < n && is_ws(v[i])
        invariant
            from <= i <= n,
            n == v@.len(),
            ws_run_end(v@, from as int) == ws_run_end(v@, i as int),
        decreases n - i,
    {
        i = i + 1;
    }
    i
}

/// Appends `v[a..b]` to `out`.
fn push_range(out: &mut Vec<char>, v: &Vec<char>, a: usize, b: usize)
    requires
        a <= b <= v@.len(),
    ensures
        final(out)@ == old(out)@ + v@.subrange(a as int, b as int),
{
    let mut k: usize = a;
    while k < b
        invariant
            a <= k <= b <= v@.len(),
            out@ =~= old(out)@ + v@.subrange(a as int, k as int),
        decreases b - k,
    {
        out.push(v[k]);
        k = k + 1;
    }
    proof {
        assert(out@ =~= old(out)@ + v@.subrange(a as int, b as int));
    }
}

/// The precision-comma rewrite, as executable code.
fn rewrite_exec(s: &Vec<char>) -> (out: Vec<char>)
    ensures
        out@ == rewrite_precision(s@),
{
    let n: usize = s.len();
    let mut out: Vec<char> = Vec::new();
    let mut i: usize = 0;
    while i < n
        invariant
            i <= n,
            n == s@.len(),
            rewrite_from(s@, 0) =~= out@ + rewrite_from(s@, i as int),
        decreases n - i,
    {
        let ghost i0 = i as int;
        if is_digit(s[i]) {
            let j = digit_end(s, i);
            let k = ws_end(s, j);
            let mut plain = true;
            if k < n && s[k] == ',' {
                let m = ws_end(s, k + 1);
                if m < n && is_digit(s[m]) {
                    let e = digit_end(s, m);
                    push_range(&mut out, s, i, j);
                    out.push('.');
                    push_range(&mut out, s, m, e);
                    proof {
                        lemma_digit_run_end_bounds(s@, i0);
                        lemma_digit_run_end_bounds(s@, m as int);
                        assert(rewrite_from(s@, i0) =~= s@.subrange(i0, j as int) + seq!['.']
                            + s@.subrange(m as int, e as int) + rewrite_from(s@, e as int));
                        assert(rewrite_from(s@, 0) =~= out@ + rewrite_from(s@, e as int));
                    }
                    i = e;
                    plain = false;
                }
            }
            if plain {
                push_range(&mut out, s, i, j);
                proof {
                    lemma_digit_run_end_bounds(s@, i0);
                    assert(rewrite_from(s@, i0) =~= s@.subrange(i0, j as int) + rewrite_from(s@, j as int));
                    assert(rewrite_from(s@, 0) =~= out@ + rewrite_from(s@, j as int));
                }
                i = j;
            }
        } else {
            out.push(s[i]);
            proof {
                assert(rewrite_from(s@, i0) =~= seq![s@[i0]] + rewrite_from(s@, i0 + 1));
                assert(rewrite_from(s@, 0) =~= out@ + rewrite_from(s@, i0 + 1));
            }
            i = i + 1;
        }
    }
    proof {
        assert(rewrite_from(s@, 0) =~= out@);
    }
    out
}

/// Whitespace tokenization, as executable code.
fn tokenize(chunk: &Vec<char>) -> (toks: Vec<Vec<char>>)
    ensures
        views(toks@) == ws_tokens(chunk@),
{
    let n: usize = chunk.len();
    let mut toks: Vec<Vec<char>> = Vec::new();
    let mut i: usize = 0;
    while i < n
        invariant
            i <= n,
            n == chunk@.len(),
            ws_tokens_from(chunk@, 0) =~= views(toks@) + ws_tokens_from(chunk@, i as int),
        decreases n - i,
    {
        if is_ws(chunk[i]) {
            i = i + 1;
        } else {
            let j = nonws_end(chunk, i);
            let t = vec_subrange(chunk, i, j);
            let ghost before = toks@;
            let ghost tv = t@;
            toks.push(t);
            proof {
                lemma_nonws_run_end_bounds(chunk@, i as int);
                assert(views(toks@) =~= views(before).push(tv));
                assert(ws_tokens_from(chunk@, 0) =~= views(toks@) + ws_tokens_from(chunk@, j as int));
            }
            i = j;
        }
    }
    proof {
        assert(views(toks@) =~= ws_tokens_from(chunk@, 0));
    }
    toks
}

/// Letter/digit run extraction, as executable code.
fn runs_exec(tok: &Vec<char>) -> (rs: Vec<Vec<char>>)
    ensures
        views(rs@) == runs(tok@),
{
    let n: usize = tok.len();
    let mut rs: Vec<Vec<char>> = Vec::new();
    let mut i: usize = 0;
    while i < n
        invariant
            i <= n,
            n == tok@.len(),
            runs_from(tok@, 0) =~= views(rs@) + runs_from(tok@, i as int),
        decreases n - i,
    {
        if is_letter(tok[i]) {
            let j = letter_end(tok, i);
            let t = vec_subrange(tok, i, j);
            let ghost before = rs@;
            let ghost tv = t@;
            rs.push(t);
            proof {
                lemma_letter_run_end_bounds(tok@, i as int);
                assert(views(rs@) =~= views(before).push(tv));
                assert(runs_from(tok@, 0) =~= views(rs@) + runs_from(tok@, j as int));
            }
            i = j;
        } else if is_digit(tok[i]) {
            let j = digit_end(tok, i);
            let t = vec_subrange(tok, i, j);
            let ghost before = rs@;
            let ghost tv = t@;
            rs.push(t);
            proof {
                lemma_digit_run_end_bounds(tok@, i as int);
                assert(views(rs@) =~= views(before).push(tv));
                assert(runs_from(tok@, 0) =~= views(rs@) + runs_from(tok@, j as int));
            }
            i = j;
        } else {
            i = i + 1;
        }
    }
    proof {
        assert(views(rs@) =~= runs_from(tok@, 0));
    }
    rs
}

// ---------------------------------------------------------------------------
// Tokens to columns
// ---------------------------------------------------------------------------

/// First index of token `w` in `toks`, or the token count if absent.
pub open spec fn find_tok_from(toks: Seq<Seq<char>>, w: Seq<char>, i: int) -> int
    decreases toks.len() - i,
{
    if i < 0 || i >= toks.len() {
        toks.len() as int
    } else if toks[i] == w {
        i
    } else {
        find_tok_from(toks, w, i + 1)
    }
}

pub open spec fn contains_token(toks: Seq<Seq<char>>, w: Seq<char>) -> bool {
    exists|i: int| 0 <= i < toks.len() && #[trigger] toks[i] == w
}

pub open spec fn is_paren(c: char) -> bool {
    c == '(' || c == ')'
}

/// `s` with every leading and trailing parenthesis removed.
pub open spec fn strip_parens(s: Seq<char>) -> Seq<char>
    decreases s.len(),
{
    if s.len() > 0 && is_paren(s[0]) {
        strip_parens(s.subrange(1, s.len() as int))
    } else if s.len() > 0 && is_paren(s.last()) {
        strip_parens(s.drop_last())
    } else {
        s
    }
}

/// The foreign-key reference of a token list: the token after a
/// `references` token names the table, the one after that (with its
/// parentheses stripped) names the column.
pub open spec fn refs_of_tokens(toks: Seq<Seq<char>>) -> (Option<Seq<char>>, Option<Seq<char>>) {
    let p = find_tok_from(toks, "references"@, 0);
    (
        if p + 1 < toks.len() { Some(toks[p + 1]) } else { None },
        if p + 2 < toks.len() { Some(strip_parens(toks[p + 2])) } else { None },
    )
}

/// The column a token list describes: the first token is the name; the
/// second decomposes into letter and digit runs giving type, width, and
/// decimal precision; `primary` and `key` anywhere mark the primary key,
/// which is then non-nullable.
pub open spec fn column_of_tokens(toks: Seq<Seq<char>>) -> ColumnV {
    let rs = runs(toks[1]);
    let pk = contains_token(toks, "primary"@) && contains_token(toks, "key"@);
    let refs = refs_of_tokens(toks);
    ColumnV {
        name: toks[0],
        column_type: if rs.len() > 0 { rs[0] } else { Seq::empty() },
        length: if rs.len() > 1 { parse_i32_opt(rs[1]) } else { None },
        decimal_places: if rs.len() > 2 { parse_i32_opt(rs[2]) } else { None },
        is_nullable: !pk,
        is_pkey: pk,
        ref_table: refs.0,
        ref_column: refs.1,
    }
}

/// The columns of the first `i` chunks; a chunk without a name/type token
/// pair fails the whole parse.
pub open spec fn columns_upto(chunks: Seq<Seq<char>>, i: int) -> Result<Seq<ColumnV>, DdlError>
    decreases i,
{
    if i <= 0 {
        Ok(Seq::empty())
    } else {
        match columns_upto(chunks, i - 1) {
            Err(e) => Err(e),
            Ok(cs) => {
                let toks = ws_tokens(chunks[i - 1]);
                if toks.len() < 2 {
                    Err(DdlError::BadColumnDef)
                } else {
                    Ok(cs.push(column_of_tokens(toks)))
                }
            }
        }
    }
}

pub open spec fn columns_of_chunks(chunks: Seq<Seq<char>>) -> Result<Seq<ColumnV>, DdlError> {
    columns_upto(chunks, chunks.len() as int)
}

proof fn lemma_columns_err(chunks: Seq<Seq<char>>, i: int, m: int)
    requires
        0 <= i <= m,
        columns_upto(chunks, i) == Err::<Seq<ColumnV>, DdlError>(DdlError::BadColumnDef),
    ensures
        columns_upto(chunks, m) == Err::<Seq<ColumnV>, DdlError>(DdlError::BadColumnDef),
    decreases m - i,
{
    if m > i {
        lemma_columns_err(chunks, i, m - 1);
    }
}

proof fn lemma_columns_upto_len(chunks: Seq<Seq<char>>, i: int)
    requires
        0 <= i,
        columns_upto(chunks, i) is Ok,
    ensures
        columns_upto(chunks, i)->Ok_0.len() == i,
    decreases i,
{
    if i > 0 {
        lemma_columns_upto_len(chunks, i - 1);
    }
}

// ---------------------------------------------------------------------------
// The parse pipeline
// ---------------------------------------------------------------------------

pub open spec fn ddl_prefix() -> Seq<char> {
    "create table "@
}

/// The lower-cased, trimmed input.
pub open spec fn norm_input(s: Seq<char>) -> Seq<char> {
    trim_seq(lower_seq(s))
}

pub open spec fn has_ddl_prefix(s: Seq<char>) -> bool {
    s.len() >= ddl_prefix().len() && s.subrange(0, ddl_prefix().len() as int) == ddl_prefix()
}

pub open spec fn after_prefix(s: Seq<char>) -> Seq<char> {
    norm_input(s).skip(ddl_prefix().len() as int)
}

pub open spec fn paren_idx(s: Seq<char>) -> int {
    find_from(after_prefix(s), '(', 0)
}

/// The table name: what stands before the first `(`, trimmed.
pub open spec fn table_name_of(s: Seq<char>) -> Seq<char> {
    trim_seq(after_prefix(s).take(paren_idx(s)))
}

pub open spec fn after_paren(s: Seq<char>) -> Seq<char> {
    after_prefix(s).skip(paren_idx(s) + 1)
}

pub open spec fn rparen_idx(s: Seq<char>) -> int {
    rfind_before(after_paren(s), ')', after_paren(s).len() as int)
}

/// The column-definition text: between the first `(` and the last `)`,
/// trimmed; trailing clauses after the last `)` are dropped.
pub open spec fn column_body(s: Seq<char>) -> Seq<char> {
    trim_seq(after_paren(s).take(rparen_idx(s)))
}

/// The top-level column chunks after precision-comma normalization.
pub open spec fn column_chunks(s: Seq<char>) -> Seq<Seq<char>> {
    split_commas(rewrite_precision(column_body(s)))
}

/// What parsing a DDL string yields: a table model, or the first way the
/// input is malformed.
pub open spec fn parse_ddl_spec(s: Seq<char>) -> Result<TableV, DdlError> {
    if !has_ddl_prefix(norm_input(s)) {
        Err(DdlError::MissingCreateTable)
    } else if paren_idx(s) >= after_prefix(s).len() {
        Err(DdlError::MissingColumnList)
    } else if rparen_idx(s) < 0 {
        Err(DdlError::UnterminatedColumnList)
    } else {
        match columns_of_chunks(column_chunks(s)) {
            Err(e) => Err(e),
            Ok(cols) => Ok(TableV { name: table_name_of(s), columns: cols, comment: None }),
        }
    }
}

/// Parse-count law: a successfully parsed table has exactly one column per
/// top-level comma-separated chunk of the precision-normalized column body.
pub proof fn lemma_parse_column_count(input: Seq<char>, t: TableV)
    requires
        parse_ddl_spec(input) == Ok::<TableV, DdlError>(t),
    ensures
        t.columns.len() == column_chunks(input).len(),
{
    lemma_columns_upto_len(column_chunks(input), column_chunks(input).len() as int);
}

// ---------------------------------------------------------------------------
// Executable parsing
// ---------------------------------------------------------------------------

fn lower_chars(v: &Vec<char>) -> (r: Vec<char>)
    ensures
        r@ == lower_seq(v@),
{
    let n: usize = v.len();
    let mut r: Vec<char> = Vec::new();
    let mut i: usize = 0;
    while i < n
        invariant
            i <= n,
            n == v@.len(),
            r@.len() == i,
            forall|k: int| 0 <= k < i ==> #[trigger] r@[k] == lower_char(v@[k]),
        decreases n - i,
    {
        r.push(to_lower(v[i]));
        i = i + 1;
    }
    proof {
        assert(r@ =~= lower_seq(v@));
    }
    r
}

fn chars_eq_str(v: &Vec<char>, s: &str) -> (r: bool)
    ensures
        r == (v@ == s@),
{
    let ns: usize = s.unicode_len();
    if v.len() != ns {
        return false;
    }
    let mut i: usize = 0;
    while i < ns
        invariant
            i <= ns,
            ns == s@.len(),
            ns == v@.len(),
            forall|k: int| 0 <= k < i ==> v@[k] == s@[k],
        decreases ns - i,
    {
        if v[i] != s.get_char(i) {
            return false;
        }
        i = i + 1;
    }
    proof {
        assert(v@ =~= s@);
    }
    true
}

fn contains_tok(toks: &Vec<Vec<char>>, w: &str) -> (r: bool)
    ensures
        r == contains_token(views(toks@), w@),
{
    let n: usize = toks.len();
    let mut i: usize = 0;
    while i < n
        invariant
            i <= n,
            n == toks@.len(),
            forall|k: int| 0 <= k < i ==> #[trigger] views(toks@)[k] != w@,
        decreases n - i,
    {
        if chars_eq_str(&toks[i], w) {
            proof {
                assert(views(toks@)[i as int] == w@);
            }
            return true;
        }
        i = i + 1;
    }
    false
}

fn find_tok(toks: &Vec<Vec<char>>, w: &str) -> (r: usize)
    ensures
        r == find_tok_from(views(toks@), w@, 0),
        r <= toks@.len(),
{
    let n: usize = toks.len();
    let mut i: usize = 0;
    while i < n
        invariant
            i <= n,
            n == toks@.len(),
            find_tok_from(views(toks@), w@, 0) == find_tok_from(views(toks@), w@, i as int),
        decreases n - i,
    {
        if chars_eq_str(&toks[i], w) {
            proof {
                assert(views(toks@)[i as int] == w@);
            }
            return i;
        }
        i = i + 1;
    }
    n
}

fn strip_parens_exec(v: &Vec<char>) -> (r: Vec<char>)
    ensures
        r@ == strip_parens(v@),
    decreases v@.len(),
{
    let n: usize = v.len();
    if n > 0 && (v[0] == '(' || v[0] == ')') {
        let sub = vec_subrange(v, 1, n);
        strip_parens_exec(&sub)
    } else if n > 0 && (v[n - 1] == '(' || v[n - 1] == ')') {
        let sub = vec_subrange(v, 0, n - 1);
        proof {
            assert(sub@ =~= v@.drop_last());
        }
        strip_parens_exec(&sub)
    } else {
        vec_subrange(v, 0, n)
    }
}

/// The column one chunk's token list describes, with its model.
fn column_from_tokens(toks: &Vec<Vec<char>>) -> (c: Column)
    requires
        toks@.len() >= 2,
    ensures
        c@ == column_of_tokens(views(toks@)),
        c@.wf(),
{
    let name = chars_to_string(&toks[0]);
    let rs = runs_exec(&toks[1]);
    let column_type = if rs.len() > 0 {
        chars_to_string(&rs[0])
    } else {
        String::new()
    };
    let length = if rs.len() > 1 { parse_i32_chars(&rs[1]) } else { None };
    let decimal_places = if rs.len() > 2 { parse_i32_chars(&rs[2]) } else { None };
    let is_pkey = contains_tok(toks, "primary") && contains_tok(toks, "key");
    let p = find_tok(toks, "references");
    let nt = toks.len();
    let ref_table = if p < nt && nt - p > 1 {
        Some(chars_to_string(&toks[p + 1]))
    } else {
        None
    };
    let ref_column = if p < nt && nt - p > 2 {
        let stripped = strip_parens_exec(&toks[p + 2]);
        Some(chars_to_string(&stripped))
    } else {
        None
    };
    let c = Column {
        name,
        column_type,
        length,
        decimal_places,
        is_nullable: !is_pkey,
        is_pkey,
        ref_table,
        ref_column,
    };
    proof {
        assert(views(toks@)[0] == toks@[0]@);
        assert(views(toks@)[1] == toks@[1]@);
        if p < nt && nt - p > 1 {
            assert(views(toks@)[p + 1] == toks@[p as int + 1]@);
        }
        if p < nt && nt - p > 2 {
            assert(views(toks@)[p + 2] == toks@[p as int + 2]@);
        }
        assert(c@ == column_of_tokens(views(toks@)));
    }
    c
}

pub open spec fn strs_views(ts: Seq<&str>) -> Seq<Seq<char>> {
    ts.map_values(|t: &str| t@)
}

fn find_ref_pos(column_parts: &[&str]) -> (r: usize)
    ensures
        r == find_tok_from(strs_views(column_parts@), "references"@, 0),
        r <= column_parts@.len(),
{
    let n: usize = column_parts.len();
    let mut i: usize = 0;
    while i < n
        invariant
            i <= n,
            n == column_parts@.len(),
            find_tok_from(strs_views(column_parts@), "references"@, 0)
                == find_tok_from(strs_views(column_parts@), "references"@, i as int),
        decreases n - i,
    {
        if str_eq(column_parts[i], "references") {
            proof {
                assert(strs_views(column_parts@)[i as int] == column_parts@[i as int]@);
            }
            return i;
        }
        proof {
            assert(strs_views(column_parts@)[i as int] == column_parts@[i as int]@);
        }
        i = i + 1;
    }
    n
}

impl Table {
    /// Scans a column's whitespace tokens for a `references <table>(<col>)`
    /// fragment and returns the referenced table and column, if present.
    pub fn parse_references(column_parts: &[&str]) -> (r: (Option<String>, Option<String>))
        ensures
            opt_str_view(r.0) == refs_of_tokens(strs_views(column_parts@)).0,
            opt_str_view(r.1) == refs_of_tokens(strs_views(column_parts@)).1,
    {
        let n: usize = column_parts.len();
        let pos: usize = find_ref_pos(column_parts);
        let ref_table = if pos < n && n - pos > 1 {
            let t: &str = column_parts[pos + 1];
            Some(t.to_owned())
        } else {
            None
        };
        let ref_column = if pos < n && n - pos > 2 {
            let t: &str = column_parts[pos + 2];
            let chars = str_to_chars(t);
            let stripped = strip_parens_exec(&chars);
            Some(chars_to_string(&stripped))
        } else {
            None
        };
        proof {
            if pos < n && n - pos > 1 {
                assert(strs_views(column_parts@)[pos as int + 1] == column_parts@[pos as int + 1]@);
            }
            if pos < n && n - pos > 2 {
                assert(strs_views(column_parts@)[pos as int + 2] == column_parts@[pos as int + 2]@);
            }
        }
        (ref_table, ref_column)
    }

    /// Parses one `create table` statement into a table, or reports how the
    /// input is malformed. The result is exactly `parse_ddl_spec` of the
    /// input's characters.
    pub fn init_via_sql(create_table_string: &str) -> (r: Result<Table, DdlError>)
        ensures
            match r {
                Ok(t) => parse_ddl_spec(create_table_string@) == Ok::<TableV, DdlError>(t@)
                    && t@.wf(),
                Err(e) => parse_ddl_spec(create_table_string@) == Err::<TableV, DdlError>(e),
            },
    {
        let ghost input = create_table_string@;
        let raw = str_to_chars(create_table_string);
        let low = lower_chars(&raw);
        let v = trim_chars(&low);
        proof {
            assert(v@ == norm_input(input));
        }
        let p = "create table ";
        let plen: usize = p.unicode_len();
        if v.len() < plen {
            proof {
                assert(!has_ddl_prefix(norm_input(input)));
            }
            return Err(DdlError::MissingCreateTable);
        }
        let mut pi: usize = 0;
        while pi < plen
            invariant
                pi <= plen,
                input == create_table_string@,
                p@ == ddl_prefix(),
                plen == p@.len(),
                plen == ddl_prefix().len(),
                v@.len() >= plen,
                v@ == norm_input(input),
                forall|k: int| 0 <= k < pi ==> v@[k] == ddl_prefix()[k],
            decreases plen - pi,
        {
            if v[pi] != p.get_char(pi) {
                proof {
                    if has_ddl_prefix(norm_input(input)) {
                        let pre = norm_input(input).subrange(0, ddl_prefix().len() as int);
                        assert(pre == ddl_prefix());
                        assert(pre[pi as int] == norm_input(input)[pi as int]);
                        assert(v@[pi as int] == ddl_prefix()[pi as int]);
                        assert(false);
                    }
                    assert(parse_ddl_spec(input)
                        == Err::<TableV, DdlError>(DdlError::MissingCreateTable));
                }
                return Err(DdlError::MissingCreateTable);
            }
            pi = pi + 1;
        }
        proof {
            assert(v@.subrange(0, ddl_prefix().len() as int) =~= ddl_prefix());
            assert(has_ddl_prefix(norm_input(input)));
        }
        let rest = vec_subrange(&v, plen, v.len());
        proof {
            assert(rest@ =~= after_prefix(input));
        }
        let pidx = find_char_from(&rest, '(', 0);
        if pidx == rest.len() {
            proof {
                assert(paren_idx(input) >= after_prefix(input).len());
            }
            return Err(DdlError::MissingColumnList);
        }
        let name_part = vec_subrange(&rest, 0, pidx);
        let tname_chars = trim_chars(&name_part);
        let tname = chars_to_string(&tname_chars);
        proof {
            assert(name_part@ =~= after_prefix(input).take(paren_idx(input)));
            assert(tname@ == table_name_of(input));
        }
        let after = vec_subrange(&rest, pidx + 1, rest.len());
        proof {
            assert(after@ =~= after_paren(input));
        }
        let q: usize = match rfind_char(&after, ')') {
            Some(q) => q,
            None => {
                proof {
                    assert(rparen_idx(input) < 0);
                }
                return Err(DdlError::UnterminatedColumnList);
            }
        };
        let body_raw = vec_subrange(&after, 0, q);
        let body = trim_chars(&body_raw);
        let rw = rewrite_exec(&body);
        proof {
            assert(body_raw@ =~= after_paren(input).take(rparen_idx(input)));
            assert(body@ == column_body(input));
            assert(rw@ == rewrite_precision(column_body(input)));
        }
        let ghost chunks = column_chunks(input);
        proof {
            assert(chunks == split_commas(rw@));
            assert(split_commas_from(rw@, 0) =~= chunks.skip(0));
            assert(crate::schema::cols_view(Seq::<Column>::empty()) =~= Seq::<ColumnV>::empty());
        }
        let mut columns: Vec<Column> = Vec::new();
        let mut i: usize = 0;
        loop
            invariant_except_break
                split_commas_from(rw@, i as int) =~= chunks.skip(columns@.len() as int),
            invariant
                i <= rw@.len(),
                input == create_table_string@,
                rw@ == rewrite_precision(column_body(input)),
                chunks == column_chunks(input),
                chunks == split_commas(rw@),
                has_ddl_prefix(norm_input(input)),
                paren_idx(input) < after_prefix(input).len(),
                rparen_idx(input) >= 0,
                columns@.len() <= chunks.len(),
                columns_upto(chunks, columns@.len() as int)
                    == Ok::<Seq<ColumnV>, DdlError>(crate::schema::cols_view(columns@)),
                forall|m: int| 0 <= m < columns@.len()
                    ==> (#[trigger] crate::schema::cols_view(columns@)[m]).wf(),
            ensures
                columns_upto(chunks, chunks.len() as int)
                    == Ok::<Seq<ColumnV>, DdlError>(crate::schema::cols_view(columns@)),
                forall|m: int| 0 <= m < columns@.len()
                    ==> (#[trigger] crate::schema::cols_view(columns@)[m]).wf(),
            decreases rw@.len() - i,
        {
            let ghost cnt = columns@.len() as int;
            let j = find_char_from(&rw, ',', i);
            let chunk = vec_subrange(&rw, i, j);
            proof {
                assert(chunks.skip(cnt).len() >= 1);
                assert(cnt < chunks.len());
                assert(chunks.skip(cnt)[0] == chunks[cnt]);
                if j < rw@.len() {
                    assert(chunks[cnt] == rw@.subrange(i as int, j as int));
                } else {
                    assert(chunks[cnt] == rw@.subrange(i as int, rw@.len() as int));
                }
                assert(chunk@ == chunks[cnt]);
            }
            let toks = tokenize(&chunk);
            if toks.len() < 2 {
                proof {
                    assert(views(toks@).len() == toks@.len());
                    assert(ws_tokens(chunks[cnt]).len() < 2);
                    assert(columns_upto(chunks, cnt + 1)
                        == Err::<Seq<ColumnV>, DdlError>(DdlError::BadColumnDef));
                    lemma_columns_err(chunks, cnt + 1, chunks.len() as int);
                    assert(columns_of_chunks(column_chunks(input))
                        == Err::<Seq<ColumnV>, DdlError>(DdlError::BadColumnDef));
                    assert(parse_ddl_spec(input)
                        == Err::<TableV, DdlError>(DdlError::BadColumnDef));
                }
                return Err(DdlError::BadColumnDef);
            }
            proof {
                assert(views(toks@).len() == toks@.len());
            }
            let col = column_from_tokens(&toks);
            let ghost before = columns@;
            columns.push(col);
            proof {
                assert(crate::schema::cols_view(columns@)
                    =~= crate::schema::cols_view(before).push(col@));
                assert(columns_upto(chunks, cnt + 1)
                    == Ok::<Seq<ColumnV>, DdlError>(crate::schema::cols_view(columns@)));
            }
            if j == rw.len() {
                proof {
                    assert(chunks.skip(cnt).len() == 1);
                    assert(chunks.len() == cnt + 1);
                }
                break;
            }
            proof {
                assert(split_commas_from(rw@, i as int)
                    =~= seq![chunk@] + split_commas_from(rw@, j + 1));
                assert(chunks.skip(cnt).len() == 1 + split_commas_from(rw@, j + 1).len());
                assert forall|m: int| 0 <= m < chunks.skip(cnt + 1).len()
                    implies #[trigger] chunks.skip(cnt + 1)[m] == split_commas_from(rw@, j + 1)[m] by {
                    assert(chunks.skip(cnt + 1)[m] == chunks[cnt + 1 + m]);
                    assert(chunks[cnt + 1 + m] == chunks.skip(cnt)[1 + m]);
                    assert(chunks.skip(cnt)[1 + m] == split_commas_from(rw@, i as int)[1 + m]);
                    assert(split_commas_from(rw@, i as int)[1 + m]
                        == split_commas_from(rw@, j + 1)[m]);
                }
                assert(chunks.skip(cnt + 1) =~= split_commas_from(rw@, j + 1));
            }
            i = j + 1;
        }
        let t = Table { name: tname, columns, comment: None };
        proof {
            assert(t@.columns == crate::schema::cols_view(t.columns@));
            assert(parse_ddl_spec(input) == Ok::<TableV, DdlError>(t@));
            assert(t@.wf());
        }
        Ok(t)
    }
}

} // verus!
