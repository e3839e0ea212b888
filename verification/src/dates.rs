//! Calendar dates as plain year/month/day values. The generator needs only
//! today's date (from the system clock, behind a trusted wrapper), a fixed
//! base date, lexicographic ordering, and `YYYY-MM-DD` rendering.

use vstd::prelude::*;
use crate::numfmt::{dec_str, dec_pad, zeros, push_u64, push_zeros};

verus! {

/// A calendar date, held as plain numbers so the logic on it is verified.
#[derive(Copy, Clone, PartialEq, Eq, Structural)]
pub struct Date {
    pub year: u32,
    pub month: u32,
    pub day: u32,
}

/// The bounds under which a date renders as four, two and two digits.
pub open spec fn date_wf(d: Date) -> bool {
    &&& 1 <= d.year <= 9999
    &&& 1 <= d.month <= 12
    &&& 1 <= d.day <= 31
}

/// Lexicographic order on (year, month, day).
pub open spec fn date_le(a: Date, b: Date) -> bool {
    ||| a.year < b.year
    ||| (a.year == b.year && a.month < b.month)
    ||| (a.year == b.year && a.month == b.month && a.day <= b.day)
}

/// The `YYYY-MM-DD` rendering of a date.
pub open spec fn date_str(d: Date) -> Seq<char> {
    dec_pad(d.year as nat, 4) + seq!['-'] + dec_pad(d.month as nat, 2) + seq!['-'] + dec_pad(d.day as nat, 2)
}

pub proof fn lemma_dec_str_len_small(n: nat)
    requires
        n < 10000,
    ensures
        dec_str(n).len() == if n < 10 { 1int } else if n < 100 { 2int } else if n < 1000 { 3int } else { 4int },
    decreases n,
{
    if n >= 10 {
        lemma_dec_str_len_small(n / 10);
    }
}

/// Appends `n` zero-padded to width `w` (for the small fields of a date).
pub fn push_u32_pad(out: &mut Vec<char>, n: u32, w: usize)
    requires
        n < 10000,
        w <= 4,
        crate::numfmt::dec_str(n as nat).len() <= w,
    ensures
        final(out)@ =~= old(out)@ + dec_pad(n as nat, w as int),
{
    proof {
        lemma_dec_str_len_small(n as nat);
    }
    let digits: usize = if n < 10 { 1 } else if n < 100 { 2 } else if n < 1000 { 3 } else { 4 };
    push_zeros(out, w - digits);
    push_u64(out, n as u64);
}

/// Appends the `YYYY-MM-DD` rendering of `d`.
pub fn push_date(out: &mut Vec<char>, d: Date)
    requires
        date_wf(d),
    ensures
        final(out)@ =~= old(out)@ + date_str(d),
{
    proof {
        lemma_dec_str_len_small(d.year as nat);
        lemma_dec_str_len_small(d.month as nat);
        lemma_dec_str_len_small(d.day as nat);
    }
    push_u32_pad(out, d.year, 4);
    out.push('-');
    push_u32_pad(out, d.month, 2);
    out.push('-');
    push_u32_pad(out, d.day, 2);
}

pub fn date_le_exec(a: Date, b: Date) -> (r: bool)
    ensures
        r == date_le(a, b),
{
    if a.year < b.year {
        true
    } else if a.year == b.year && a.month < b.month {
        true
    } else if a.year == b.year && a.month == b.month && a.day <= b.day {
        true
    } else {
        false
    }
}

/// Relies on chrono: `Local::now().date_naive()` is today's date in the
/// local time zone, and `NaiveDate::month` and `NaiveDate::day` return the
/// month number in 1..=12 and the day number in 1..=31.
#[verifier::external_body]
fn local_today_ymd() -> (r: (i32, u32, u32))
    ensures
        1 <= r.1 <= 12,
        1 <= r.2 <= 31,
{
    let d = chrono::Local::now().date_naive();
    (chrono::Datelike::year(&d), chrono::Datelike::month(&d), chrono::Datelike::day(&d))
}

/// Today's local calendar date, with the year clamped to the range the
/// four-digit rendering can carry.
pub fn current_date() -> (d: Date)
    ensures
        date_wf(d),
{
    let (y, m, dd) = local_today_ymd();
    let year: u32 = if y < 1 { 1 } else if y > 9999 { 9999 } else { y as u32 };
    Date { year, month: m, day: dd }
}

} // verus!
