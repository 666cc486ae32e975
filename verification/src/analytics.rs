//! Aggregations for the analytics dashboard: minutes per day, streaks, the
//! activity heatmap grid and the weekly-minutes trend. Dates are day numbers.

use vstd::prelude::*;
use crate::dates::{parse_day, parsed_day, weekday_from_sunday, days_from_sunday, weekday_from_monday, days_from_monday, day_month_label, day_month_text, format_month, month_text};
use crate::text::opt_text;

verus! {

pub fn weekday_label(index: usize) -> (r: &'static str)
    ensures
        r@ == (if index == 0 {
            "Sun"@
        } else if index == 1 {
            "Mon"@
        } else if index == 2 {
            "Tue"@
        } else if index == 3 {
            "Wed"@
        } else if index == 4 {
            "Thu"@
        } else if index == 5 {
            "Fri"@
        } else {
            "Sat"@
        }),
{
    match index {
        0 => "Sun",
        1 => "Mon",
        2 => "Tue",
        3 => "Wed",
        4 => "Thu",
        5 => "Fri",
        _ => "Sat",
    }
}

// ---------------------------------------------------------------------------
// Minutes per day
// ---------------------------------------------------------------------------

/// The rows of the study log as texts and minutes.
pub open spec fn log_rows(rows: Seq<(String, i64)>) -> Seq<(Seq<char>, i64)> {
    rows.map_values(|r: (String, i64)| (r.0@, r.1))
}

/// Minutes logged on `day` across the rows whose date reads as that day.
pub open spec fn day_total(rows: Seq<(Seq<char>, i64)>, day: i32) -> int
    decreases rows.len(),
{
    if rows.len() == 0 {
        0
    } else {
        day_total(rows.drop_last(), day) + if parsed_day(rows.last().0) == Some(day) {
            rows.last().1 as int
        } else {
            0int
        }
    }
}

/// Some row's date reads as `day`.
pub open spec fn day_logged(rows: Seq<(Seq<char>, i64)>, day: i32) -> bool {
    exists|i: int| 0 <= i < rows.len() && parsed_day(#[trigger] rows[i].0) == Some(day)
}

/// Strictly ascending by day.
pub open spec fn ascending(v: Seq<(i32, i64)>) -> bool {
    forall|i: int, j: int| 0 <= i < j < v.len() ==> (#[trigger] v[i]).0 < (#[trigger] v[j]).0
}

/// `v` lists, in day order, every day some row's date reads as, with the
/// minutes logged on it.
pub open spec fn per_day(v: Seq<(i32, i64)>, rows: Seq<(Seq<char>, i64)>) -> bool {
    &&& ascending(v)
    &&& forall|i: int| 0 <= i < v.len() ==> day_logged(rows, (#[trigger] v[i]).0) && v[i].1 == day_total(rows, v[i].0)
    &&& forall|d: i32| #[trigger] day_logged(rows, d) ==> exists|i: int| 0 <= i < v.len() && v[i].0 == d
}

/// Every running per-day total fits in an `i64`.
pub open spec fn totals_fit(rows: Seq<(Seq<char>, i64)>) -> bool {
    forall|k: int, d: i32| 0 <= k <= rows.len() ==> i64::MIN <= #[trigger] day_total(rows.take(k), d) <= i64::MAX
}

/// Sum the study log into minutes per day, in day order; rows whose date does
/// not read as a date are skipped.
pub fn minutes_by_day(rows: &[(String, i64)]) -> (r: Vec<(i32, i64)>)
    requires
        totals_fit(log_rows(rows@)),
    ensures
        per_day(r@, log_rows(rows@)),
{
    match minutes_by_day_checked(rows) {
        Some(v) => v,
        None => {
            proof {
                assert(false);
            }
            Vec::new()
        },
    }
}

/// The running totals up to row `k` all fit in an `i64`.
pub open spec fn prefix_fits(rows: Seq<(Seq<char>, i64)>, k: int) -> bool {
    forall|j: int, d: i32| 0 <= j <= k ==> i64::MIN <= #[trigger] day_total(rows.take(j), d) <= i64::MAX
}

/// `minutes_by_day` for any log: `None` exactly when some day's running
/// total does not fit in an `i64`.
pub fn minutes_by_day_checked(rows: &[(String, i64)]) -> (r: Option<Vec<(i32, i64)>>)
    ensures
        match r {
            Some(v) => totals_fit(log_rows(rows@)) && per_day(v@, log_rows(rows@)),
            None => !totals_fit(log_rows(rows@)),
        },
{
    let ghost all = log_rows(rows@);
    let mut v: Vec<(i32, i64)> = Vec::new();
    let mut k: usize = 0;
    proof {
        assert forall|j: int, d: i32| 0 <= j <= 0 implies i64::MIN <= #[trigger] day_total(all.take(j), d) <= i64::MAX by {
            assert(all.take(j).len() == 0);
        }
    }
    while k < rows.len()
        invariant
            k <= rows.len(),
            all == log_rows(rows@),
            prefix_fits(all, k as int),
            per_day(v@, all.take(k as int)),
        decreases rows.len() - k,
    {
        let ghost pre = all.take(k as int);
        let ghost cur = all.take(k + 1);
        assert(cur.drop_last() =~= pre);
        assert(cur.last() == (rows@[k as int].0@, rows@[k as int].1));
        let (date, minutes) = (&rows[k].0, rows[k].1);
        let parsed = parse_day(date.as_str());
        assert forall|d: i32| #![trigger day_logged(cur, d)] day_logged(pre, d) ==> day_logged(cur, d) by {
            if day_logged(pre, d) {
                let i = choose|i: int| 0 <= i < pre.len() && parsed_day(#[trigger] pre[i].0) == Some(d);
                assert(cur[i] == pre[i]);
            }
        }
        match parsed {
            None => {
                assert forall|d: i32| #![trigger day_logged(cur, d)] day_logged(cur, d) ==> day_logged(pre, d) by {
                    if day_logged(cur, d) {
                        let i = choose|i: int| 0 <= i < cur.len() && parsed_day(#[trigger] cur[i].0) == Some(d);
                        assert(i < pre.len());
                        assert(cur[i] == pre[i]);
                    }
                }
            },
            Some(day) => {
                assert(day_logged(cur, day)) by {
                    assert(parsed_day(cur[k as int].0) == Some(day));
                }
                assert forall|d: i32| #![trigger day_logged(cur, d)] d != day && day_logged(cur, d) ==> day_logged(pre, d) by {
                    if d != day && day_logged(cur, d) {
                        let i = choose|i: int| 0 <= i < cur.len() && parsed_day(#[trigger] cur[i].0) == Some(d);
                        assert(i < pre.len());
                        assert(cur[i] == pre[i]);
                    }
                }
                let mut p: usize = 0;
                while p < v.len() && v[p].0 < day
                    invariant
                        p <= v.len(),
                        forall|j: int| 0 <= j < p ==> (#[trigger] v@[j]).0 < day,
                    decreases v.len() - p,
                {
                    p = p + 1;
                }
                let ghost before = v@;
                assert(day_total(cur, day) == day_total(pre, day) + minutes);
                if p < v.len() && v[p].0 == day {
                    let total = match v[p].1.checked_add(minutes) {
                        Some(t) => t,
                        None => {
                            proof {
                                assert(all.take(k + 1) == cur);
                                assert(!(i64::MIN <= day_total(all.take(k + 1), day) <= i64::MAX));
                            }
                            return None;
                        },
                    };
                    v.set(p, (day, total));
                } else {
                    proof {
                        if day_logged(pre, day) {
                            let i = choose|i: int| 0 <= i < before.len() && before[i].0 == day;
                            if i < p {
                                assert(before[i].0 < day);
                            } else if i > p {
                                assert(before[p as int].0 < before[i].0);
                            }
                        }
                        assert(day_total(pre, day) == 0) by {
                            lemma_unlogged_total(pre, day);
                        }
                    }
                    v.insert(p, (day, minutes));
                }
                proof {
                    assert forall|i: int, j: int| 0 <= i < j < v@.len() implies (#[trigger] v@[i]).0 < (#[trigger] v@[j]).0 by {
                        if v@.len() > before.len() {
                            if i < p && j > p {
                                assert(v@[j] == before[j - 1]);
                                assert(before[i].0 < day);
                                if p < before.len() {
                                    assert(before[p as int].0 > day || before[p as int].0 == day);
                                }
                                if j - 1 > p {
                                    assert(before[p as int].0 < before[j - 1].0);
                                }
                            } else if i > p {
                                assert(v@[i] == before[i - 1]);
                                assert(v@[j] == before[j - 1]);
                            } else if j < p {
                            } else if i == p {
                                assert(v@[j] == before[j - 1]);
                                if p < before.len() {
                                    assert(before[p as int].0 >= day);
                                    if j - 1 > p {
                                        assert(before[p as int].0 < before[j - 1].0);
                                    }
                                }
                            } else {
                                assert(j == p);
                                assert(before[i].0 < day);
                            }
                        }
                    }
                    assert forall|i: int| 0 <= i < v@.len() implies day_logged(cur, (#[trigger] v@[i]).0) && v@[i].1 == day_total(cur, v@[i].0) by {
                        let e = v@[i];
                        if e.0 != day {
                            let bi = if v@.len() > before.len() && i > p { i - 1 } else { i };
                            assert(e == before[bi]);
                            assert(day_total(cur, e.0) == day_total(pre, e.0));
                        }
                    }
                    assert forall|d: i32| #[trigger] day_logged(cur, d) implies exists|i: int| 0 <= i < v@.len() && v@[i].0 == d by {
                        if d == day {
                            assert(v@[p as int].0 == day);
                        } else {
                            assert(day_logged(pre, d));
                            let i = choose|i: int| 0 <= i < before.len() && before[i].0 == d;
                            if v@.len() > before.len() && i >= p {
                                assert(v@[i + 1] == before[i]);
                            } else {
                                assert(v@[i] == before[i]);
                            }
                        }
                    }
                }
            },
        }
        proof {
            if parsed is None {
                assert forall|i: int| 0 <= i < v@.len() implies day_logged(cur, (#[trigger] v@[i]).0) && v@[i].1 == day_total(cur, v@[i].0) by {}
            }
            assert(all.take(k + 1) == cur);
            assert forall|j: int, d: i32| 0 <= j <= k + 1 implies i64::MIN <= #[trigger] day_total(all.take(j), d) <= i64::MAX by {
                if j == k + 1 {
                    if day_logged(cur, d) {
                        let i = choose|i: int| 0 <= i < v@.len() && v@[i].0 == d;
                        assert(v@[i].1 == day_total(cur, v@[i].0));
                    } else {
                        lemma_unlogged_total(cur, d);
                    }
                }
            }
        }
        k = k + 1;
    }
    assert(all.take(rows.len() as int) =~= all);
    Some(v)
}

/// A day no row reads as has nothing logged on it.
pub proof fn lemma_unlogged_total(rows: Seq<(Seq<char>, i64)>, day: i32)
    requires
        !day_logged(rows, day),
    ensures
        day_total(rows, day) == 0,
    decreases rows.len(),
{
    if rows.len() > 0 {
        let p = rows.drop_last();
        assert(!day_logged(p, day)) by {
            if day_logged(p, day) {
                let i = choose|i: int| 0 <= i < p.len() && parsed_day(#[trigger] p[i].0) == Some(day);
                assert(rows[i] == p[i]);
            }
        }
        assert(parsed_day(rows[rows.len() - 1].0) != Some(day));
        lemma_unlogged_total(p, day);
    }
}


// ---------------------------------------------------------------------------
// Streaks
// ---------------------------------------------------------------------------

/// Minutes logged on `day` in a per-day list, or 0 when it is not listed.
pub open spec fn minutes_on(v: Seq<(i32, i64)>, day: int) -> int {
    if exists|i: int| 0 <= i < v.len() && v[i].0 == day {
        v[choose|i: int| 0 <= i < v.len() && v[i].0 == day].1 as int
    } else {
        0
    }
}

/// The days with more than zero minutes, in order.
pub open spec fn active_days(v: Seq<(i32, i64)>) -> Seq<i32>
    decreases v.len(),
{
    if v.len() == 0 {
        seq![]
    } else if v.last().1 > 0 {
        active_days(v.drop_last()).push(v.last().0)
    } else {
        active_days(v.drop_last())
    }
}

/// Length of the run of consecutive days that ends at active day `i`.
pub open spec fn run_ending_at(a: Seq<i32>, i: int) -> int
    decreases i,
{
    if i <= 0 {
        1
    } else if a[i] == a[i - 1] + 1 {
        run_ending_at(a, i - 1) + 1
    } else {
        1
    }
}

/// The longest run of consecutive days among the first `n` active days.
pub open spec fn longest_run(a: Seq<i32>, n: int) -> int
    decreases n,
{
    if n <= 0 {
        0
    } else {
        let prev = longest_run(a, n - 1);
        let here = run_ending_at(a, n - 1);
        if here > prev {
            here
        } else {
            prev
        }
    }
}

/// The days counted back from `start` while each has minutes logged: `k` of them.
pub open spec fn streak_back(v: Seq<(i32, i64)>, start: int, k: int) -> bool {
    &&& 0 <= k
    &&& forall|j: int| 0 <= j < k ==> minutes_on(v, #[trigger] (start - j)) > 0
    &&& minutes_on(v, start - k) <= 0
}

/// Where the current streak is counted back from: today, or yesterday when
/// nothing is logged today yet.
pub open spec fn streak_start(v: Seq<(i32, i64)>, today: i32) -> int {
    if minutes_on(v, today as int) > 0 {
        today as int
    } else {
        today - 1
    }
}

/// The sum of all minutes in a per-day list.
pub open spec fn minutes_sum(v: Seq<(i32, i64)>) -> int
    decreases v.len(),
{
    if v.len() == 0 {
        0
    } else {
        minutes_sum(v.drop_last()) + v.last().1
    }
}

/// Streaks and totals of the study log.
#[derive(Debug, Clone, Copy, PartialEq, Eq, Structural)]
pub struct Streaks {
    pub current_streak: i64,
    pub longest_streak: i64,
    pub total_minutes: i64,
}

fn lookup_minutes(v: &[(i32, i64)], day: i64) -> (r: i64)
    requires
        ascending(v@),
    ensures
        r == minutes_on(v@, day as int),
{
    let mut i: usize = 0;
    while i < v.len()
        invariant
            i <= v.len(),
            ascending(v@),
            forall|j: int| 0 <= j < i ==> (#[trigger] v@[j]).0 != day,
        decreases v.len() - i,
    {
        if v[i].0 as i64 == day {
            proof {
                let c = choose|c: int| 0 <= c < v@.len() && v@[c].0 == day;
                if c != i {
                    if c < i {
                        assert(v@[c].0 < v@[i as int].0);
                    } else {
                        assert(v@[i as int].0 < v@[c].0);
                    }
                }
            }
            return v[i].1;
        }
        i = i + 1;
    }
    0
}

proof fn lemma_active_count(v: Seq<(i32, i64)>)
    ensures
        active_days(v).len() <= v.len(),
    decreases v.len(),
{
    if v.len() > 0 {
        lemma_active_count(v.drop_last());
    }
}

/// The longest run of consecutive active days, the current streak counted
/// back from today (or from yesterday when today is still idle), and the
/// minutes logged in all.
pub fn streaks(v: &[(i32, i64)], today: i32) -> (r: Streaks)
    requires
        ascending(v@),
        today as int - 1 - v.len() > i32::MIN,
        forall|k: int| 0 <= k <= v.len() ==> i64::MIN <= #[trigger] minutes_sum(v@.take(k)) <= i64::MAX,
    ensures
        r.longest_streak == longest_run(active_days(v@), active_days(v@).len() as int),
        streak_back(v@, streak_start(v@, today), r.current_streak as int),
        r.total_minutes == minutes_sum(v@),
{
    let ghost act = active_days(v@);
    // Longest run of consecutive active days.
    let mut longest: i64 = 0;
    let mut run: i64 = 0;
    let mut prev: Option<i32> = None;
    let mut n: usize = 0;
    let mut total: i64 = 0;
    let mut i: usize = 0;
    proof {
        lemma_active_count(v@);
    }
    while i < v.len()
        invariant
            i <= v.len(),
            n == active_days(v@.take(i as int)).len(),
            n <= i,
            act == active_days(v@),
            active_days(v@.take(i as int)) == act.take(n as int),
            n <= act.len(),
            longest == longest_run(act, n as int),
            0 <= longest <= n,
            n > 0 ==> run == run_ending_at(act, n - 1) && 1 <= run <= n && prev == Some(act[n - 1]),
            n == 0 ==> prev is None,
            total == minutes_sum(v@.take(i as int)),
            today as int - 1 - v.len() > i32::MIN,
            forall|k: int| 0 <= k <= v.len() ==> i64::MIN <= #[trigger] minutes_sum(v@.take(k)) <= i64::MAX,
        decreases v.len() - i,
    {
        let ghost pre = v@.take(i as int);
        let ghost cur = v@.take(i + 1);
        assert(cur.drop_last() =~= pre);
        assert(cur.last() == v@[i as int]);
        assert(minutes_sum(cur) == minutes_sum(pre) + v@[i as int].1);
        total = total + v[i].1;
        if v[i].1 > 0 {
            let date = v[i].0;
            proof {
                assert(active_days(cur) == active_days(pre).push(date));
                lemma_active_len_mono(v@, i + 1);
                lemma_active_prefix(v@, i + 1);
                assert(act.take(n + 1)[n as int] == date);
            }
            run = match prev {
                Some(p) => if p < i32::MAX && date == p + 1 {
                    run + 1
                } else {
                    1
                },
                None => 1,
            };
            if run > longest {
                longest = run;
            }
            prev = Some(date);
            n = n + 1;
        }
        i = i + 1;
    }
    assert(v@.take(v.len() as int) =~= v@);
    assert(act.take(n as int) =~= act);

    // Current streak, counted back from today or yesterday.
    let today_minutes = lookup_minutes(v, today as i64);
    let mut cursor: i64 = if today_minutes > 0 {
        today as i64
    } else {
        today as i64 - 1
    };
    let ghost start = cursor as int;
    // `hi` counts the listed days up to and including the cursor.
    let mut hi: usize = 0;
    while hi < v.len() && (v[hi].0 as i64) <= cursor
        invariant
            hi <= v.len(),
            forall|j: int| 0 <= j < hi ==> (#[trigger] v@[j]).0 <= cursor,
        decreases v.len() - hi,
    {
        hi = hi + 1;
    }
    let mut current: i64 = 0;
    loop
        invariant
            ascending(v@),
            start == streak_start(v@, today),
            cursor == start - current,
            0 <= current,
            hi <= v.len(),
            current + hi <= v.len(),
            today as int - 1 - v.len() > i32::MIN,
            forall|j: int| 0 <= j < hi ==> (#[trigger] v@[j]).0 <= cursor,
            forall|j: int| hi <= j < v.len() ==> (#[trigger] v@[j]).0 > cursor,
            forall|j: int| 0 <= j < current ==> minutes_on(v@, #[trigger] (start - j)) > 0,
        ensures
            streak_back(v@, start, current as int),
        decreases hi,
    {
        let listed = hi > 0 && v[hi - 1].0 as i64 == cursor;
        if !listed || v[hi - 1].1 <= 0 {
            proof {
                if exists|c: int| 0 <= c < v@.len() && v@[c].0 == cursor {
                    let c = choose|c: int| 0 <= c < v@.len() && v@[c].0 == cursor;
                    assert(c < hi);
                    if c < hi - 1 {
                        assert(v@[c].0 < v@[hi - 1].0);
                    }
                    assert(c == hi - 1);
                }
            }
            break;
        }
        proof {
            let c = choose|c: int| 0 <= c < v@.len() && v@[c].0 == cursor;
            if c != hi - 1 {
                if c < hi - 1 {
                    assert(v@[c].0 < v@[hi - 1].0);
                } else {
                    assert(v@[hi - 1].0 < v@[c].0);
                }
            }
            assert(minutes_on(v@, start - current) > 0);
            assert forall|j: int| 0 <= j < hi - 1 implies (#[trigger] v@[j]).0 <= cursor - 1 by {
                assert(v@[j].0 < v@[hi - 1].0);
            }
        }
        current = current + 1;
        cursor = cursor - 1;
        hi = hi - 1;
    }
    Streaks { current_streak: current, longest_streak: longest, total_minutes: total }
}

/// Every running total of the minutes fits in an `i64`.
pub open spec fn sums_fit(v: Seq<(i32, i64)>) -> bool {
    forall|k: int| 0 <= k <= v.len() ==> i64::MIN <= #[trigger] minutes_sum(v.take(k)) <= i64::MAX
}

/// `streaks` for any per-day list: `None` exactly when a running total of
/// its minutes does not fit in an `i64`.
pub fn streaks_checked(v: &[(i32, i64)], today: i32) -> (r: Option<Streaks>)
    requires
        ascending(v@),
        today as int - 1 - v.len() > i32::MIN,
    ensures
        match r {
            Some(s) => sums_fit(v@)
                && s.longest_streak == longest_run(active_days(v@), active_days(v@).len() as int)
                && streak_back(v@, streak_start(v@, today), s.current_streak as int)
                && s.total_minutes == minutes_sum(v@),
            None => !sums_fit(v@),
        },
{
    let mut total: i64 = 0;
    let mut i: usize = 0;
    proof {
        assert(v@.take(0) =~= Seq::<(i32, i64)>::empty());
    }
    while i < v.len()
        invariant
            i <= v@.len(),
            total == minutes_sum(v@.take(i as int)),
            forall|k: int| 0 <= k <= i ==> i64::MIN <= #[trigger] minutes_sum(v@.take(k)) <= i64::MAX,
        decreases v.len() - i,
    {
        assert(v@.take(i + 1).drop_last() =~= v@.take(i as int));
        match total.checked_add(v[i].1) {
            Some(t) => {
                total = t;
            },
            None => {
                assert(!(i64::MIN <= minutes_sum(v@.take(i + 1)) <= i64::MAX));
                return None;
            },
        }
        i = i + 1;
    }
    Some(streaks(v, today))
}

proof fn lemma_active_prefix(v: Seq<(i32, i64)>, k: int)
    requires
        0 <= k <= v.len(),
    ensures
        active_days(v.take(k)) == active_days(v).take(active_days(v.take(k)).len() as int),
    decreases v.len(),
{
    if v.len() > 0 && k < v.len() {
        lemma_active_prefix(v.drop_last(), k);
        assert(v.drop_last().take(k) =~= v.take(k));
        lemma_active_count(v.drop_last());
        let a = active_days(v.drop_last());
        if v.last().1 > 0 {
            assert(active_days(v) == a.push(v.last().0));
            assert(a.push(v.last().0).take(active_days(v.take(k)).len() as int) =~= a.take(active_days(v.take(k)).len() as int)) by {
                lemma_active_count(v.take(k));
                lemma_active_len_mono(v.drop_last(), k);
            }
        }
    } else if k == v.len() {
        assert(v.take(k) =~= v);
        assert(active_days(v).take(active_days(v).len() as int) =~= active_days(v));
    }
}

proof fn lemma_active_len_mono(v: Seq<(i32, i64)>, k: int)
    requires
        0 <= k <= v.len(),
    ensures
        active_days(v.take(k)).len() <= active_days(v).len(),
    decreases v.len(),
{
    if k < v.len() {
        lemma_active_len_mono(v.drop_last(), k);
        assert(v.drop_last().take(k) =~= v.take(k));
    } else {
        assert(v.take(k) =~= v);
    }
}


// ---------------------------------------------------------------------------
// Heatmap and weekly trend
// ---------------------------------------------------------------------------

/// One cell of the GitHub-style heatmap.
#[derive(Debug, Clone, Copy, PartialEq, Eq, Structural)]
pub struct HeatCell {
    pub date: i32,
    pub minutes: i64,
}

pub struct Heatmap {
    /// Columns of 7 cells, oldest week first; each column runs Sunday..Saturday.
    pub weeks: Vec<Vec<Option<HeatCell>>>,
    pub max_minutes: i64,
}

/// A requested window length clamped to 4..=53 weeks.
pub open spec fn window_weeks(weeks: i64) -> int {
    if weeks < 4 {
        4
    } else if weeks > 53 {
        53
    } else {
        weeks as int
    }
}

/// The heatmap cell for day `date`: empty after today.
pub open spec fn heat_cell(v: Seq<(i32, i64)>, today: i32, date: int) -> Option<HeatCell> {
    if date > today {
        None
    } else {
        Some(HeatCell { date: date as i32, minutes: minutes_on(v, date) as i64 })
    }
}

/// A cell holds no more than `m` minutes (an empty cell holds none).
pub open spec fn cell_at_most(c: Option<HeatCell>, m: i64) -> bool {
    match c {
        Some(cell) => cell.minutes <= m,
        None => true,
    }
}

/// A filled cell holding exactly `m` minutes.
pub open spec fn cell_holds(c: Option<HeatCell>, m: i64) -> bool {
    match c {
        Some(cell) => cell.minutes == m,
        None => false,
    }
}

/// `h` is the calendar grid of the last `weeks` weeks (clamped to 4..=53)
/// ending with the week of today, each column Sunday to Saturday and oldest
/// first, with `since_sunday` the weekday of today counted from Sunday; the
/// peak is the most minutes in any cell, or 0.
pub open spec fn heat_of(h: Heatmap, v: Seq<(i32, i64)>, today: i32, weeks: i64, since_sunday: int) -> bool {
    let n = window_weeks(weeks);
    let start = today - since_sunday - 7 * (n - 1);
    &&& h.weeks@.len() == n
    &&& forall|w: int| 0 <= w < n ==> (#[trigger] h.weeks@[w])@.len() == 7
    &&& forall|w: int, d: int| 0 <= w < n && 0 <= d < 7 ==>
        (#[trigger] h.weeks@[w]@[d]) == heat_cell(v, today, start + 7 * w + d)
    &&& h.max_minutes >= 0
    &&& forall|w: int, d: int| 0 <= w < n && 0 <= d < 7 ==> cell_at_most(#[trigger] h.weeks@[w]@[d], h.max_minutes)
    &&& (h.max_minutes == 0 || exists|w: int, d: int| 0 <= w < n && 0 <= d < 7 && cell_holds(#[trigger] h.weeks@[w]@[d], h.max_minutes))
}

/// In a heatmap every day up to and including today is shown with the
/// minutes logged on it, and only days after today are left empty; today
/// itself sits in the last column, in the row of its weekday.
pub proof fn lemma_heatmap_shows_every_day_so_far(h: Heatmap, v: Seq<(i32, i64)>, today: i32, weeks: i64, since_sunday: int)
    requires
        0 <= since_sunday < 7,
        heat_of(h, v, today, weeks, since_sunday),
    ensures
        ({
            let n = window_weeks(weeks);
            let start = today - since_sunday - 7 * (n - 1);
            &&& forall|w: int, d: int| 0 <= w < n && 0 <= d < 7 && start + 7 * w + d <= today ==>
                #[trigger] h.weeks@[w]@[d] == Some(HeatCell {
                    date: (start + 7 * w + d) as i32,
                    minutes: minutes_on(v, start + 7 * w + d) as i64,
                })
            &&& forall|w: int, d: int| 0 <= w < n && 0 <= d < 7 && start + 7 * w + d > today ==>
                #[trigger] h.weeks@[w]@[d] is None
            &&& h.weeks@[n - 1]@[since_sunday] == Some(HeatCell { date: today, minutes: minutes_on(v, today as int) as i64 })
            &&& minutes_on(v, today as int) <= h.max_minutes
            &&& h.weeks@.len() == (if weeks < 4 { 4 } else if weeks > 53 { 53 } else { weeks as int })
            &&& forall|w: int| 0 <= w < n ==> (#[trigger] h.weeks@[w])@.len() == 7
            &&& forall|w: int, d: int| 0 <= w < n && 0 <= d < 7 && start + 7 * w + d <= today ==>
                #[trigger] h.weeks@[w]@[d] is Some && minutes_on(v, start + 7 * w + d) <= h.max_minutes
            &&& (h.max_minutes == 0 || exists|w: int, d: int| 0 <= w < n && 0 <= d < 7 && start + 7 * w + d <= today
                && minutes_on(v, start + 7 * w + d) == h.max_minutes && #[trigger] h.weeks@[w]@[d] is Some)
        }),
{
    let n = window_weeks(weeks);
    let start = today - since_sunday - 7 * (n - 1);
    assert(start + 7 * (n - 1) + since_sunday == today);
    assert(h.weeks@[n - 1]@[since_sunday] == heat_cell(v, today, start + 7 * (n - 1) + since_sunday));
    assert(cell_at_most(h.weeks@[n - 1]@[since_sunday], h.max_minutes));
}

/// Build a calendar grid covering the last `weeks` weeks, ending today;
/// `None` when today is outside the calendar's range.
pub fn heatmap(v: &[(i32, i64)], today: i32, weeks: i64) -> (r: Option<Heatmap>)
    requires
        ascending(v@),
        today as int - 7 * 53 > i32::MIN,
    ensures
        match r {
            Some(h) => days_from_sunday(today) matches Some(k) && heat_of(h, v@, today, weeks, k as int),
            None => days_from_sunday(today) is None,
        },
{
    let since = match weekday_from_sunday(today) {
        Some(k) => k,
        None => return None,
    };
    let n: i64 = if weeks < 4 {
        4
    } else if weeks > 53 {
        53
    } else {
        weeks
    };
    let start: i64 = today as i64 - since as i64 - 7 * (n - 1);
    let mut grid: Vec<Vec<Option<HeatCell>>> = Vec::new();
    let mut max_minutes: i64 = 0;
    let ghost mut wa: int = 0;
    let ghost mut wd: int = 0;
    let mut w: i64 = 0;
    while w < n
        invariant
            0 <= w <= n,
            n == window_weeks(weeks),
            start == today - since - 7 * (n - 1),
            since < 7,
            today as int - 7 * 53 > i32::MIN,
            ascending(v@),
            grid@.len() == w,
            forall|a: int| 0 <= a < w ==> (#[trigger] grid@[a])@.len() == 7,
            forall|a: int, d: int| 0 <= a < w && 0 <= d < 7 ==>
                (#[trigger] grid@[a]@[d]) == heat_cell(v@, today, start + 7 * a + d),
            max_minutes >= 0,
            forall|a: int, d: int| 0 <= a < w && 0 <= d < 7 ==> cell_at_most(#[trigger] grid@[a]@[d], max_minutes),
            max_minutes == 0 || (0 <= wa < w && 0 <= wd < 7 && cell_holds(grid@[wa]@[wd], max_minutes)),
        decreases n - w,
    {
        let mut column: Vec<Option<HeatCell>> = Vec::new();
        let ghost old_max = max_minutes;
        let ghost old_wa = wa;
        let ghost old_wd = wd;
        let ghost old_grid = grid@;
        let mut d: i64 = 0;
        while d < 7
            invariant
                0 <= d <= 7,
                0 <= w < n,
                n == window_weeks(weeks),
                start == today - since - 7 * (n - 1),
                since < 7,
                today as int - 7 * 53 > i32::MIN,
                ascending(v@),
                column@.len() == d,
                forall|e: int| 0 <= e < d ==> #[trigger] column@[e] == heat_cell(v@, today, start + 7 * w + e),
                max_minutes >= old_max,
                old_max >= 0,
                forall|e: int| 0 <= e < d ==> cell_at_most(#[trigger] column@[e], max_minutes),
                max_minutes == old_max || (wa == w && 0 <= wd < d && cell_holds(column@[wd], max_minutes)),
                max_minutes == old_max ==> wa == old_wa && wd == old_wd,
            decreases 7 - d,
        {
            let date = start + 7 * w + d;
            if date > today as i64 {
                column.push(None);
            } else {
                let minutes = lookup_minutes(v, date);
                if minutes > max_minutes {
                    max_minutes = minutes;
                    proof {
                        wa = w as int;
                        wd = d as int;
                    }
                }
                column.push(Some(HeatCell { date: date as i32, minutes }));
            }
            d = d + 1;
        }
        grid.push(column);
        proof {
            assert forall|a: int, e: int| 0 <= a < w + 1 && 0 <= e < 7 implies
                (#[trigger] grid@[a]@[e]) == heat_cell(v@, today, start + 7 * a + e) by {
                if a == w {
                    assert(grid@[a] == column);
                }
            }
            assert forall|a: int, e: int| 0 <= a < w + 1 && 0 <= e < 7 implies
                cell_at_most(#[trigger] grid@[a]@[e], max_minutes) by {
                if a == w {
                    assert(grid@[a] == column);
                } else {
                    assert(cell_at_most(grid@[a]@[e], old_max));
                }
            }
            if max_minutes != old_max {
                assert(grid@[wa] == column);
            } else if max_minutes != 0 {
                assert(grid@[wa] == old_grid[wa]);
            }
        }
        w = w + 1;
    }
    Some(Heatmap { weeks: grid, max_minutes })
}

/// Minutes logged on the first `k` days from `start`.
pub open spec fn week_sum(v: Seq<(i32, i64)>, start: int, k: nat) -> int
    decreases k,
{
    if k == 0 {
        0
    } else {
        week_sum(v, start, (k - 1) as nat) + minutes_on(v, start + k - 1)
    }
}

/// Every running total of the week from `start` fits in an `i64`.
pub open spec fn week_fits(v: Seq<(i32, i64)>, start: int) -> bool {
    forall|k: nat| k <= 7 ==> i64::MIN <= #[trigger] week_sum(v, start, k) <= i64::MAX
}

/// The Monday that starts the `i`-th of `n` weeks, oldest first, whose last
/// week holds today (`since_monday` days after its Monday).
pub open spec fn trend_week_start(today: i32, since_monday: int, n: int, i: int) -> int {
    today - since_monday - 7 * (n - 1 - i)
}

/// The trend can be told for the `i`-th week: its total fits and its Monday
/// has a label.
pub open spec fn trend_week_ok(v: Seq<(i32, i64)>, today: i32, since_monday: int, n: int, i: int) -> bool {
    let ws = trend_week_start(today, since_monday, n, i);
    week_fits(v, ws) && day_month_text(ws as i32) is Some
}

/// Minutes per week for the trend chart over the last `weeks` weeks (clamped
/// to 4..=53), oldest first: the `%d %b` label of each week's Monday and the
/// minutes logged Monday to Sunday. `None` when today or a Monday is outside
/// the calendar, or a week's total does not fit in an `i64`.
pub fn weekly_minutes(v: &[(i32, i64)], today: i32, weeks: i64) -> (r: Option<Vec<(String, i64)>>)
    requires
        ascending(v@),
        today as int - 7 * 53 > i32::MIN,
    ensures
        match r {
            Some(out) => days_from_monday(today) matches Some(k) && {
                let n = window_weeks(weeks);
                &&& out@.len() == n
                &&& forall|i: int| 0 <= i < n ==> {
                    let ws = trend_week_start(today, k as int, n, i);
                    &&& (#[trigger] out@[i]).1 == week_sum(v@, ws, 7)
                    &&& day_month_text(ws as i32) == Some(out@[i].0@)
                }
            },
            None => match days_from_monday(today) {
                None => true,
                Some(k) => exists|i: int| 0 <= i < window_weeks(weeks) && !#[trigger] trend_week_ok(v@, today, k as int, window_weeks(weeks), i),
            },
        },
{
    let since = match weekday_from_monday(today) {
        Some(k) => k,
        None => return None,
    };
    let n: i64 = if weeks < 4 {
        4
    } else if weeks > 53 {
        53
    } else {
        weeks
    };
    let mut out: Vec<(String, i64)> = Vec::new();
    let mut i: i64 = 0;
    while i < n
        invariant
            0 <= i <= n,
            n == window_weeks(weeks),
            since < 7,
            days_from_monday(today) == Some(since),
            today as int - 7 * 53 > i32::MIN,
            ascending(v@),
            out@.len() == i,
            forall|j: int| 0 <= j < i ==> {
                let ws = trend_week_start(today, since as int, n as int, j);
                &&& (#[trigger] out@[j]).1 == week_sum(v@, ws, 7)
                &&& day_month_text(ws as i32) == Some(out@[j].0@)
            },
        decreases n - i,
    {
        let week_start: i64 = today as i64 - since as i64 - 7 * (n - 1 - i);
        let ghost ws = trend_week_start(today, since as int, n as int, i as int);
        assert(week_start == ws);
        let mut total: i64 = 0;
        let mut d: i64 = 0;
        while d < 7
            invariant
                0 <= d <= 7,
                ascending(v@),
                week_start == ws,
                ws == trend_week_start(today, since as int, n as int, i as int),
                0 <= i < n,
                n == window_weeks(weeks),
                since < 7,
                days_from_monday(today) == Some(since),
                today as int - 7 * 53 > i32::MIN,
                total == week_sum(v@, ws, d as nat),
                forall|k: nat| k <= d ==> i64::MIN <= #[trigger] week_sum(v@, ws, k) <= i64::MAX,
            decreases 7 - d,
        {
            let m = lookup_minutes(v, week_start + d);
            match total.checked_add(m) {
                Some(t) => {
                    total = t;
                }
                None => {
                    proof {
                        assert(week_sum(v@, ws, (d + 1) as nat) == total + m);
                        assert(!week_fits(v@, ws));
                        assert(!trend_week_ok(v@, today, since as int, n as int, i as int));
                    }
                    return None;
                }
            }
            d = d + 1;
            proof {
                assert forall|k: nat| k <= d implies i64::MIN <= #[trigger] week_sum(v@, ws, k) <= i64::MAX by {
                    if k == d {
                    }
                }
            }
        }
        let label = match day_month_label(week_start as i32) {
            Some(l) => l,
            None => {
                proof {
                    assert(!trend_week_ok(v@, today, since as int, n as int, i as int));
                }
                return None;
            }
        };
        out.push((label, total));
        proof {
            assert forall|j: int| 0 <= j < i + 1 implies {
                let ws2 = trend_week_start(today, since as int, n as int, j);
                &&& (#[trigger] out@[j]).1 == week_sum(v@, ws2, 7)
                &&& day_month_text(ws2 as i32) == Some(out@[j].0@)
            } by {
                if j == i {
                    assert(out@[j].0@ == label@);
                }
            }
        }
        i = i + 1;
    }
    Some(out)
}

/// Whether day `day` is a Sunday, where a heatmap column starts.
pub fn is_week_start(day: i32) -> (r: bool)
    ensures
        r == (days_from_sunday(day) == Some(0u32)),
{
    match weekday_from_sunday(day) {
        Some(k) => k == 0,
        None => false,
    }
}

/// The month label ("Mar") of a heatmap column's first day, shown when the
/// month changes; `None` outside the calendar.
pub fn month_label(day: i32) -> (r: Option<String>)
    ensures
        opt_text(r) == month_text(day),
{
    format_month(day)
}

} // verus!
