//! The progress display of a running test.
use vstd::prelude::*;
use crate::text::{repeat_char, push_char};

verus! {

/// The progress bar for `pct` percent: one `█` per 5 percent, then `░` up
/// to 20 characters.
pub open spec fn progress_bar(pct: nat) -> Seq<char> {
    let filled = pct / 5;
    let empty: nat = if filled >= 20 { 0 } else { (20 - filled) as nat };
    repeat_char('█', filled) + repeat_char('░', empty)
}

/// Draws the progress bar for `pct` percent.
pub fn make_progress_bar(pct: usize) -> (s: String)
    ensures
        s@ == progress_bar(pct as nat),
{
    let filled = pct / 5;
    let empty = 20 - if filled < 20 { filled } else { 20 };
    let mut s = String::new();
    let mut i: usize = 0;
    while i < filled
        invariant
            0 <= i <= filled,
            s@ == repeat_char('█', i as nat),
        decreases filled - i,
    {
        push_char(&mut s, '█');
        assert(s@ =~= repeat_char('█', (i + 1) as nat));
        i = i + 1;
    }
    let mut j: usize = 0;
    while j < empty
        invariant
            0 <= j <= empty,
            s@ == repeat_char('█', filled as nat) + repeat_char('░', j as nat),
        decreases empty - j,
    {
        push_char(&mut s, '░');
        assert(s@ =~= repeat_char('█', filled as nat) + repeat_char('░', (j + 1) as nat));
        j = j + 1;
    }
    s
}

/// Up to 100 percent the bar is 20 characters wide.
pub proof fn law_progress_bar_width(pct: nat)
    requires
        pct <= 100,
    ensures
        progress_bar(pct).len() == 20,
{
}

/// How many completed requests lie between two progress reports: a tenth of
/// the test, at least one.
pub fn report_interval(total: usize) -> (n: usize)
    ensures
        n == (if total / 10 >= 1 { total / 10 } else { 1 }),
{
    let tenth = total / 10;
    if tenth >= 1 { tenth } else { 1 }
}

/// Whether the completion of request number `done` of `total` is reported,
/// when the last report was at `last`: the final request always is, others
/// once `interval` more have completed.
pub open spec fn is_reported(done: nat, total: nat, last: nat, interval: nat) -> bool {
    done == total || done - last >= interval
}

/// Decides whether a completion is reported.
pub fn should_report(done: usize, total: usize, last: usize, interval: usize) -> (b: bool)
    requires
        done == total || last <= done,
    ensures
        b == is_reported(done as nat, total as nat, last as nat, interval as nat),
{
    done == total || done - last >= interval
}

/// The completion of the last request is always reported.
pub proof fn law_last_request_reported(total: nat, last: nat, interval: nat)
    ensures
        is_reported(total, total, last, interval),
{
}

/// The final completion is reported, and so is any completion at least
/// `interval` after the last report; no other completion is.
pub proof fn law_report_rule(done: nat, total: nat, last: nat, interval: nat)
    requires
        done == total || last <= done,
    ensures
        done == total ==> is_reported(done, total, last, interval),
        done >= last + interval ==> is_reported(done, total, last, interval),
        done != total && done < last + interval ==> !is_reported(done, total, last, interval),
{
}

/// The bar's first pct / 5 characters are `█` and the rest, up to 20
/// characters in all, are `░`; beyond 100 percent it grows past 20.
pub proof fn law_progress_bar_cells(pct: nat, i: int)
    requires
        0 <= i < progress_bar(pct).len(),
    ensures
        progress_bar(pct).len() == (if pct / 5 >= 20 { pct / 5 } else { 20 }),
        progress_bar(pct)[i] == (if i < pct / 5 { '█' } else { '░' }),
{
}

} // verus!
