//! Offsets within the week: how many calendar days lie between a start on a given weekday
//! and the `n`-th open weekday from it, holidays left aside. The default week has a
//! closed form for this; for any other week the offsets are tabled once in a cache.

use crate::counting::{
    count_in, lemma_count_agree, lemma_count_first, lemma_count_shift, lemma_count_split,
    repeats_at,
};
use crate::model::{
    lemma_closed_run, lemma_nth_workday_is, lemma_weeks_count, open_count, CalendarModel,
};
use crate::weekday::{lemma_weekday_step, next_weekday, previous_weekday, weekday_of};
use ahash::AHashMap;
use vstd::prelude::*;

verus! {

/// The calendar of a week mask alone, without holidays.
pub open spec fn plain(weekmask: Seq<bool>) -> CalendarModel {
    CalendarModel { weekmask, holidays: Set::empty() }
}

/// A date that falls on the given weekday.
pub open spec fn anchor_date(weekday: int) -> int {
    weekday + 3
}

/// `delta` is the number of calendar days from a start on `weekday` to the `n`-th open
/// weekday from it.
pub open spec fn is_weekday_offset(weekmask: Seq<bool>, weekday: int, n: int, delta: int) -> bool {
    plain(weekmask).is_nth_workday_from(anchor_date(weekday), n, anchor_date(weekday) + delta)
}

/// The number of calendar days from a start on `weekday` to the `n`-th open weekday from it.
pub open spec fn weekday_offset(weekmask: Seq<bool>, weekday: int, n: int) -> int {
    plain(weekmask).nth_workday_from(anchor_date(weekday), n) - anchor_date(weekday)
}

/// The week that is open from Monday to Friday.
pub open spec fn default_weekmask() -> Seq<bool> {
    seq![true, true, true, true, true, false, false]
}

/// In a calendar without holidays, whether a day is a business day repeats every week.
proof fn lemma_plain_periodic(m: CalendarModel, period: int)
    requires
        forall|d: int| !m.holidays.contains(d),
        period % 7 == 0,
    ensures
        forall|d: int| #[trigger] repeats_at(m.workday_pred(), period, d),
{
    let p = m.workday_pred();
    assert forall|d: int| #[trigger] repeats_at(p, period, d) by {
        lemma_weekday_shift(d, period);
    }
}

/// Dates a multiple of seven apart fall on the same weekday.
proof fn lemma_weekday_shift(date: int, period: int)
    requires
        period % 7 == 0,
    ensures
        weekday_of(date + period) == weekday_of(date),
{
}

/// An offset within the week holds from every start on that weekday, in every calendar
/// with that week and without holidays.
pub proof fn lemma_offset_applies(m: CalendarModel, start: int, n: int, delta: int)
    requires
        m.weekmask.len() == 7,
        forall|d: int| !m.holidays.contains(d),
        is_weekday_offset(m.weekmask, weekday_of(start), n, delta),
    ensures
        m.is_nth_workday_from(start, n, start + delta),
{
    let pm = plain(m.weekmask);
    let a = anchor_date(weekday_of(start));
    let period = start - a;
    let p = m.workday_pred();
    let q = pm.workday_pred();
    assert(period % 7 == 0);
    lemma_plain_periodic(pm, period);
    lemma_weekday_shift(a + delta, period);
    if n > 0 {
        lemma_count_shift(q, period, a + 1, a + delta + 1);
        assert forall|d: int| start + 1 <= d < start + delta + 1 implies #[trigger] p(d) == q(d) by {}
        lemma_count_agree(p, q, start + 1, start + delta + 1);
    } else if n < 0 {
        lemma_count_shift(q, period, a + delta, a);
        assert forall|d: int| start + delta <= d < start implies #[trigger] p(d) == q(d) by {}
        lemma_count_agree(p, q, start + delta, start);
    }
}

/// The `n`-th business day from `start` is the `b`-th from the `a`-th, where `a` and `b`
/// point the same way and add up to `n`.
pub proof fn lemma_nth_workday_chain(m: CalendarModel, start: int, a: int, mid: int, b: int, t: int)
    requires
        m.is_nth_workday_from(start, a, mid),
        m.is_nth_workday_from(mid, b, t),
        (a >= 0 && b >= 0) || (a <= 0 && b <= 0),
    ensures
        m.is_nth_workday_from(start, a + b, t),
{
    let p = m.workday_pred();
    if a > 0 && b > 0 {
        lemma_count_split(p, start + 1, mid + 1, t + 1);
    } else if a < 0 && b < 0 {
        lemma_count_split(p, t, mid, start);
    }
}

/// In a calendar without holidays, the same weekday `weeks` weeks on is the business day
/// that many week lengths on (`weeks` may be negative).
pub proof fn lemma_whole_weeks(m: CalendarModel, start: int, weeks: int)
    requires
        m.weekmask.len() == 7,
        forall|d: int| !m.holidays.contains(d),
        m.open_weekday(start),
    ensures
        m.is_nth_workday_from(start, weeks * m.week_length(), start + 7 * weeks),
        m.week_length() >= 1,
{
    crate::model::lemma_open_weekday_counts(m, start);
    let span = m.week_length();
    let p = m.workday_pred();
    let q = m.open_weekday_pred();
    assert(weekday_of(start + 7 * weeks) == weekday_of(start));
    if weeks > 0 {
        lemma_weeks_count(m, start + 1, weeks);
        assert forall|d: int| start + 1 <= d < start + 7 * weeks + 1 implies #[trigger] p(d) == q(
            d,
        ) by {}
        lemma_count_agree(p, q, start + 1, start + 7 * weeks + 1);
        assert(weeks * span > 0) by (nonlinear_arith)
            requires
                weeks > 0,
                span >= 1,
        ;
    } else if weeks < 0 {
        lemma_weeks_count(m, start + 7 * weeks, -weeks);
        assert forall|d: int| start + 7 * weeks <= d < start implies #[trigger] p(d) == q(d) by {}
        lemma_count_agree(p, q, start + 7 * weeks, start);
        assert(weeks * span < 0 && -(weeks * span) == (-weeks) * span) by (nonlinear_arith)
            requires
                weeks < 0,
                span >= 1,
        ;
    } else {
        assert(weeks * span == 0);
    }
}

/// The number of open weekdays of a week mask.
pub fn count_open(weekmask: &[bool; 7]) -> (n_weekdays: i32)
    ensures
        n_weekdays == open_count(weekmask@, 7),
        0 <= n_weekdays <= 7,
{
    let mut count: i32 = 0;
    let mut i: usize = 0;
    while i < 7
        invariant
            i <= 7,
            count == open_count(weekmask@, i as int),
            0 <= count <= i,
        decreases 7 - i,
    {
        if weekmask[i] {
            count += 1;
        }
        i += 1;
    }
    count
}

/// The weekday `n` days after `x_weekday`, for `n` within a week either way.
pub fn fast_modulo(x_weekday: i32, n: i32) -> (w: i32)
    requires
        1 <= x_weekday <= 7,
        -7 <= n <= 7,
    ensures
        w == weekday_of(anchor_date(x_weekday as int) + n),
        1 <= w <= 7,
        n == 1 ==> w == next_weekday(x_weekday as int),
        n == -1 ==> w == previous_weekday(x_weekday as int),
{
    let res = x_weekday + n;
    if n > 0 && res > 7 {
        res - 7
    } else if n < 0 && res < 1 {
        res + 7
    } else {
        res
    }
}

/// Steps day by day from a start on `x_weekday` until `n` open weekdays have been landed
/// on (backwards for negative `n`), and returns the number of days stepped, with the sign
/// of `n`.
pub fn advance_few_days(x_weekday: i32, n: i32, weekmask: &[bool; 7]) -> (n_days: i32)
    requires
        1 <= x_weekday <= 7,
        n != 0 ==> open_count(weekmask@, 7) >= 1,
        i32::MIN <= 7 * n <= i32::MAX,
    ensures
        is_weekday_offset(weekmask@, x_weekday as int, n as int, n_days as int),
        n_days == weekday_offset(weekmask@, x_weekday as int, n as int),
{
    let ghost pm = plain(weekmask@);
    let ghost p = pm.workday_pred();
    let ghost start = anchor_date(x_weekday as int);
    let mut n_days: i32 = 0;
    let mut w = x_weekday;
    let mut left = n;
    let ghost mut run: int = 0;
    if n > 0 {
        assert(count_in(p, start + 1, start + 1) == 0);
        while left > 0
            invariant
                open_count(weekmask@, 7) >= 1,
                pm == plain(weekmask@),
                p == pm.workday_pred(),
                0 <= left <= n,
                0 < n,
                count_in(p, start + 1, start + n_days + 1) + left == n,
                left == 0 ==> pm.is_workday(start + n_days) && n_days > 0,
                w == weekday_of(start + n_days),
                1 <= w <= 7,
                0 <= run <= 6,
                0 <= n_days <= 7 * (n - left) + run,
                forall|d: int|
                    start + n_days - run < d <= start + n_days ==> !#[trigger] pm.open_weekday(d),
                7 * n <= i32::MAX,
            decreases 7 * left - run,
        {
            proof {
                lemma_weekday_step(start + n_days);
            }
            n_days += 1;
            w = fast_modulo(w, 1);
            assert(p(start + n_days) == weekmask@[w - 1]);
            if weekmask[(w - 1) as usize] {
                left -= 1;
                proof {
                    run = 0;
                }
            } else {
                proof {
                    run = run + 1;
                    lemma_closed_run(pm, start + n_days - run + 1, start + n_days + 1);
                }
            }
        }
    } else if n < 0 {
        assert(count_in(p, start, start) == 0);
        while left < 0
            invariant
                open_count(weekmask@, 7) >= 1,
                pm == plain(weekmask@),
                p == pm.workday_pred(),
                n <= left <= 0,
                n < 0,
                count_in(p, start + n_days, start) - left == -n,
                left == 0 ==> pm.is_workday(start + n_days) && n_days < 0,
                w == weekday_of(start + n_days),
                1 <= w <= 7,
                0 <= run <= 6,
                7 * (n - left) - run <= n_days <= 0,
                forall|d: int|
                    start + n_days <= d < start + n_days + run ==> !#[trigger] pm.open_weekday(d),
                i32::MIN <= 7 * n,
            decreases 7 * (-left) - run,
        {
            proof {
                lemma_weekday_step(start + n_days);
                lemma_count_first(p, start + n_days - 1, start);
            }
            n_days -= 1;
            w = fast_modulo(w, -1);
            assert(p(start + n_days) == weekmask@[w - 1]);
            if weekmask[(w - 1) as usize] {
                left += 1;
                proof {
                    run = 0;
                }
            } else {
                proof {
                    run = run + 1;
                    lemma_closed_run(pm, start + n_days, start + n_days + run);
                }
            }
        }
    }
    proof {
        lemma_nth_workday_is(pm, start, n as int, start + n_days);
    }
    n_days
}

/// `n` split into whole weeks of `n_weekdays` business days and a rest, both with the sign
/// of `n`.
pub fn split_weeks(n: i32, n_weekdays: i32) -> (parts: (i32, i32))
    requires
        1 <= n_weekdays,
    ensures
        n == parts.0 * n_weekdays + parts.1,
        n >= 0 ==> 0 <= parts.0 <= n && 0 <= parts.1 < n_weekdays,
        n <= 0 ==> n <= parts.0 <= 0 && -n_weekdays < parts.1 <= 0,
{
    let weeks = n / n_weekdays;
    let rest = n % n_weekdays;
    proof {
        let d = n_weekdays as int;
        if n >= 0 {
            let x = n as int;
            vstd::arithmetic::div_mod::lemma_fundamental_div_mod(x, d);
            vstd::arithmetic::div_mod::lemma_mod_bound(x, d);
            vstd::arithmetic::div_mod::lemma_div_pos_is_pos(x, d);
            vstd::arithmetic::div_mod::lemma_div_is_ordered_by_denominator(x, 1, d);
            vstd::arithmetic::div_mod::lemma_div_basics(x);
            assert(d * (x / d) == (x / d) * d) by (nonlinear_arith);
        } else {
            let x = -(n as int);
            vstd::arithmetic::div_mod::lemma_fundamental_div_mod(x, d);
            vstd::arithmetic::div_mod::lemma_mod_bound(x, d);
            vstd::arithmetic::div_mod::lemma_div_pos_is_pos(x, d);
            vstd::arithmetic::div_mod::lemma_div_is_ordered_by_denominator(x, 1, d);
            vstd::arithmetic::div_mod::lemma_div_basics(x);
            assert((-(x / d)) * d == -(d * (x / d))) by (nonlinear_arith);
        }
    }
    (weeks, rest)
}

/// `ahash::AHashMap`, the hash map of the cache. Nothing is known of a value of it but
/// what the functions below say.
#[verifier::external_type_specification]
#[verifier::external_body]
#[verifier::reject_recursive_types(K)]
#[verifier::reject_recursive_types(V)]
#[verifier::reject_recursive_types(S)]
pub struct ExAHashMap<K, V, S>(AHashMap<K, V, S>);

/// `ahash::RandomState`, the hasher that an `AHashMap` is made with by default.
#[verifier::external_type_specification]
#[verifier::external_body]
pub struct ExRandomState(ahash::RandomState);

/// The entries of a table of the cache: what each key maps to.
pub uninterp spec fn table_entries(table: AHashMap<i32, i32>) -> Map<i32, i32>;

/// `AHashMap::with_capacity`: a new table, which has no entries. The capacity asked for is
/// kept small, since a map cannot be made with any capacity whatever.
#[verifier::external_body]
fn table_with_capacity(capacity: usize) -> (fresh: AHashMap<i32, i32>)
    requires
        capacity <= 1024,
    ensures
        table_entries(fresh).dom() == Set::<i32>::empty(),
{
    AHashMap::with_capacity(capacity)
}

/// `AHashMap::insert`: afterwards the key maps to the value, and every other key to what
/// it mapped to before.
#[verifier::external_body]
fn table_insert(table: &mut AHashMap<i32, i32>, key: i32, value: i32)
    ensures
        table_entries(*final(table)) == table_entries(*old(table)).insert(key, value),
{
    table.insert(key, value);
}

/// `AHashMap::get`: what the key maps to, if anything.
#[verifier::external_body]
fn table_get(table: &AHashMap<i32, i32>, key: i32) -> (value: Option<i32>)
    ensures
        value == if table_entries(*table).contains_key(key) {
            Some(table_entries(*table)[key])
        } else {
            None
        },
{
    table.get(&key).copied()
}

/// The key under which the cache holds the offset of `n` business days from `weekday`.
pub open spec fn cache_key(n: int, weekday: int) -> int {
    10 * n + weekday
}

/// Whether the cache of a week holds `key`: it stands for an open weekday and a number of
/// business days of at most a week length either way.
pub open spec fn is_cache_key(weekmask: Seq<bool>, key: int) -> bool {
    let weekday = key % 10;
    let n = key / 10;
    &&& 1 <= weekday <= 7
    &&& weekmask[weekday - 1]
    &&& -open_count(weekmask, 7) <= n <= open_count(weekmask, 7)
}

/// The offsets within a week, tabled for every open weekday and every number of business
/// days from minus a week length to a week length.
pub struct OffsetCache {
    weekmask: [bool; 7],
    n_weekdays: i32,
    table: AHashMap<i32, i32>,
}

impl OffsetCache {
    /// The week that the cache was built for.
    pub closed spec fn weekmask(&self) -> Seq<bool> {
        self.weekmask@
    }

    /// What each key of the cache maps to.
    pub closed spec fn entries(&self) -> Map<i32, i32> {
        table_entries(self.table)
    }

    /// The cache holds just the keys of its week, each with the offset that it stands for.
    pub closed spec fn wf(&self) -> bool {
        &&& self.n_weekdays == open_count(self.weekmask@, 7)
        &&& holds_offsets(self.weekmask@, table_entries(self.table), 8, -8)
    }

    /// What a well-formed cache holds.
    pub proof fn lemma_entries(&self, key: i32)
        requires
            self.wf(),
        ensures
            self.entries().contains_key(key) <==> is_cache_key(self.weekmask(), key as int),
            self.entries().contains_key(key) ==> is_weekday_offset(
                self.weekmask(),
                key as int % 10,
                key as int / 10,
                self.entries()[key] as int,
            ),
    {
        assert(holds_key(self.weekmask@, table_entries(self.table), 8, -8, key));
    }

    /// The cache of a week.
    pub fn build(weekmask: &[bool; 7]) -> (cache: OffsetCache)
        ensures
            cache.wf(),
            cache.weekmask() == weekmask@,
    {
        let n_weekdays = count_open(weekmask);
        assert(0 <= (2 * n_weekdays + 1) * n_weekdays <= 105) by (nonlinear_arith)
            requires
                0 <= n_weekdays <= 7,
        ;
        let capacity = ((2 * n_weekdays + 1) * n_weekdays) as usize;
        let mut table = table_with_capacity(capacity);
        let mut w: i32 = 1;
        assert forall|key: i32| #[trigger] holds_key(weekmask@, table_entries(table), 1, -8, key) by {
            assert(!table_entries(table).dom().contains(key));
        }
        while w <= 7
            invariant
                1 <= w <= 8,
                n_weekdays == open_count(weekmask@, 7),
                0 <= n_weekdays <= 7,
                holds_offsets(weekmask@, table_entries(table), w as int, -8),
            decreases 8 - w,
        {
            if weekmask[(w - 1) as usize] {
                let mut k: i32 = -n_weekdays;
                assert forall|key: i32| #[trigger]
                    holds_key(weekmask@, table_entries(table), w as int, k as int, key) by {
                    assert(holds_key(weekmask@, table_entries(table), w as int, -8, key));
                }
                while k <= n_weekdays
                    invariant
                        1 <= w <= 7,
                        weekmask@[w - 1],
                        n_weekdays == open_count(weekmask@, 7),
                        0 <= n_weekdays <= 7,
                        -n_weekdays <= k <= n_weekdays + 1,
                        holds_offsets(weekmask@, table_entries(table), w as int, k as int),
                    decreases n_weekdays + 1 - k,
                {
                    let value = advance_few_days(w, k, weekmask);
                    let ghost before = table_entries(table);
                    table_insert(&mut table, 10 * k + w, value);
                    proof {
                        let new_key: i32 = (10 * k + w) as i32;
                        assert(new_key as int % 10 == w && new_key as int / 10 == k);
                        assert forall|key: i32| #[trigger]
                            holds_key(weekmask@, table_entries(table), w as int, k + 1, key) by {
                            assert(holds_key(weekmask@, before, w as int, k as int, key));
                            if key == new_key {
                                assert(table_entries(table)[key] == value);
                            } else {
                                assert(table_entries(table).contains_key(key) == before.contains_key(
                                    key,
                                ));
                            }
                        }
                    }
                    k += 1;
                }
                assert forall|key: i32| #[trigger]
                    holds_key(weekmask@, table_entries(table), w as int + 1, -8, key) by {
                    assert(holds_key(weekmask@, table_entries(table), w as int, k as int, key));
                }
            } else {
                assert forall|key: i32| #[trigger]
                    holds_key(weekmask@, table_entries(table), w as int + 1, -8, key) by {
                    assert(holds_key(weekmask@, table_entries(table), w as int, -8, key));
                }
            }
            w += 1;
        }
        let mut mask = [false; 7];
        let mut i: usize = 0;
        while i < 7
            invariant
                i <= 7,
                forall|j: int| 0 <= j < i ==> mask@[j] == weekmask@[j],
            decreases 7 - i,
        {
            mask[i] = weekmask[i];
            i += 1;
        }
        assert(mask@ =~= weekmask@);
        OffsetCache { weekmask: mask, n_weekdays, table }
    }

    /// The offset that the cache holds for `n_days` business days from `x_weekday`, if it
    /// holds one.
    pub fn get(&self, n_days: i32, x_weekday: i32) -> (value: Option<i32>)
        requires
            self.wf(),
            1 <= x_weekday <= 7,
        ensures
            value is Some <==> is_cache_key(self.weekmask(), cache_key(n_days as int, x_weekday as int)),
            value is Some ==> is_weekday_offset(
                self.weekmask(),
                x_weekday as int,
                n_days as int,
                value.unwrap() as int,
            ),
    {
        proof {
            crate::model::lemma_week_count(plain(self.weekmask@), 0);
            assert(cache_key(n_days as int, x_weekday as int) % 10 == x_weekday && cache_key(
                n_days as int,
                x_weekday as int,
            ) / 10 == n_days);
        }
        // no week has more than seven days
        if n_days < -7 || n_days > 7 {
            return None;
        }
        let key = n_days * 10 + x_weekday;
        proof {
            self.lemma_entries(key);
        }
        table_get(&self.table, key)
    }

    /// The number of open weekdays of the week of the cache.
    pub fn n_weekdays(&self) -> (n: i32)
        requires
            self.wf(),
        ensures
            n == open_count(self.weekmask(), 7),
    {
        self.n_weekdays
    }
}

/// What the table of a cache under construction holds of `key`: the key is in it just if
/// it is a key of the week for an earlier weekday than `weekday`, or for `weekday` and
/// fewer than `n` business days, and then with the offset that it stands for.
pub open spec fn holds_key(
    weekmask: Seq<bool>,
    entries: Map<i32, i32>,
    weekday: int,
    n: int,
    key: i32,
) -> bool {
    &&& entries.contains_key(key) <==> is_cache_key(weekmask, key as int) && (key as int % 10
        < weekday || (key as int % 10 == weekday && key as int / 10 < n))
    &&& entries.contains_key(key) ==> is_weekday_offset(
        weekmask,
        key as int % 10,
        key as int / 10,
        entries[key] as int,
    )
}

/// `holds_key` of every key.
pub open spec fn holds_offsets(weekmask: Seq<bool>, entries: Map<i32, i32>, weekday: int, n: int) -> bool {
    forall|key: i32| #[trigger] holds_key(weekmask, entries, weekday, n, key)
}

/// The offset of `n` business days from a start on the open weekday `x_weekday`, in the
/// week of the cache: whole weeks of seven days each, and the rest looked up.
pub fn calculate_n_days_without_holidays_slow(x_weekday: i32, n: i32, cache: &OffsetCache) -> (n_days:
    i64)
    requires
        cache.wf(),
        1 <= x_weekday <= 7,
        cache.weekmask().len() == 7,
        cache.weekmask()[x_weekday - 1],
    ensures
        is_weekday_offset(cache.weekmask(), x_weekday as int, n as int, n_days as int),
        n_days == weekday_offset(cache.weekmask(), x_weekday as int, n as int),
        8 * i32::MIN <= n_days <= 8 * i32::MAX,
{
    let ghost pm = plain(cache.weekmask());
    let ghost start = anchor_date(x_weekday as int);
    let n_weekdays = cache.n_weekdays();
    proof {
        assert(weekday_of(start) == x_weekday);
        crate::model::lemma_open_weekday_counts(pm, start);
    }
    let (n_weeks, rest) = split_weeks(n, n_weekdays);
    proof {
        lemma_whole_weeks(pm, start, n_weeks as int);
        assert((n >= 0 ==> n_weeks * n_weekdays >= 0) && (n <= 0 ==> n_weeks * n_weekdays <= 0))
            by (nonlinear_arith)
            requires
                n >= 0 ==> n_weeks >= 0,
                n <= 0 ==> n_weeks <= 0,
                n_weekdays >= 1,
        ;
    }
    let days: i64 = if rest == 0 {
        0
    } else {
        let found = cache.get(rest, x_weekday);
        assert(cache_key(rest as int, x_weekday as int) % 10 == x_weekday && cache_key(
            rest as int,
            x_weekday as int,
        ) / 10 == rest);
        found.unwrap() as i64
    };
    proof {
        let mid = start + 7 * n_weeks;
        assert(weekday_of(mid) == x_weekday);
        lemma_offset_applies(pm, mid, rest as int, days as int);
        lemma_nth_workday_chain(pm, start, n_weeks * n_weekdays, mid, rest as int, mid + days);
        lemma_nth_workday_is(pm, start, n as int, mid + days);
    }
    days + n_weeks as i64 * 7
}

/// In the default week, the `n`-th open weekday after a start on an open weekday lies `n`
/// days on and two more for each weekend in between; its weekday follows from `n` too.
pub proof fn lemma_default_ahead(weekday: int, n: int)
    requires
        1 <= weekday <= 5,
        0 <= n,
    ensures
        is_weekday_offset(default_weekmask(), weekday, n, n + (n + weekday - 1) / 5 * 2),
        weekday_of(anchor_date(weekday) + n + (n + weekday - 1) / 5 * 2) == (n + weekday - 1) % 5
            + 1,
    decreases n,
{
    let pm = plain(default_weekmask());
    let p = pm.workday_pred();
    let a = anchor_date(weekday);
    if n > 0 {
        lemma_default_ahead(weekday, n - 1);
        let before = a + (n - 1) + (n - 1 + weekday - 1) / 5 * 2;
        let v = (n - 1 + weekday - 1) % 5 + 1;
        let t = a + n + (n + weekday - 1) / 5 * 2;
        assert(weekday_of(before) == v);
        assert(count_in(p, a + 1, a + 1) == 0);
        if v == 5 {
            assert(t == before + 3);
            assert(weekday_of(before + 1) == 6);
            assert(weekday_of(before + 2) == 7);
            assert(weekday_of(before + 3) == 1);
            assert(!p(before + 1) && !p(before + 2) && p(before + 3));
            assert(count_in(p, before + 1, before + 4) == 1) by {
                reveal_with_fuel(count_in, 4);
            }
        } else {
            assert(t == before + 1);
            assert(weekday_of(before + 1) == v + 1);
            assert(p(before + 1));
            assert(count_in(p, before + 1, before + 2) == 1) by {
                reveal_with_fuel(count_in, 2);
            }
        }
        lemma_count_split(p, a + 1, before + 1, t + 1);
    }
}

/// In the default week, the `n`-th open weekday before a start on an open weekday lies
/// `n` days back and two more for each weekend in between.
pub proof fn lemma_default_back(weekday: int, n: int)
    requires
        1 <= weekday <= 5,
        0 <= n,
    ensures
        is_weekday_offset(default_weekmask(), weekday, -n, -(n + (n + 5 - weekday) / 5 * 2)),
        weekday_of(anchor_date(weekday) - (n + (n + 5 - weekday) / 5 * 2)) == 5 - (n + 5
            - weekday) % 5,
    decreases n,
{
    let pm = plain(default_weekmask());
    let p = pm.workday_pred();
    let a = anchor_date(weekday);
    if n > 0 {
        lemma_default_back(weekday, n - 1);
        let before = a - ((n - 1) + (n - 1 + 5 - weekday) / 5 * 2);
        let v = 5 - (n - 1 + 5 - weekday) % 5;
        let t = a - (n + (n + 5 - weekday) / 5 * 2);
        assert(weekday_of(before) == v);
        assert(count_in(p, a, a) == 0);
        if v == 1 {
            assert(t == before - 3);
            assert(weekday_of(before - 1) == 7);
            assert(weekday_of(before - 2) == 6);
            assert(weekday_of(before - 3) == 5);
            assert(!p(before - 1) && !p(before - 2) && p(before - 3));
            assert(count_in(p, before - 3, before) == 1) by {
                reveal_with_fuel(count_in, 4);
            }
        } else {
            assert(t == before - 1);
            assert(weekday_of(before - 1) == v - 1);
            assert(p(before - 1));
            assert(count_in(p, before - 1, before) == 1) by {
                reveal_with_fuel(count_in, 2);
            }
        }
        lemma_count_split(p, t, before, a);
    }
}

/// The offset of `n` business days from a start on the open weekday `x_weekday` in the
/// default week, in closed form: `n` days and two more for each weekend crossed.
pub fn calculate_n_days_without_holidays_fast(n: i32, x_weekday: i32) -> (n_days: i64)
    requires
        1 <= x_weekday <= 5,
    ensures
        is_weekday_offset(default_weekmask(), x_weekday as int, n as int, n_days as int),
        n_days == weekday_offset(default_weekmask(), x_weekday as int, n as int),
        n >= 0 ==> n_days == n + (n + x_weekday - 1) / 5 * 2,
        n < 0 ==> n_days == -(-n + (-n + 5 - x_weekday) / 5 * 2),
{
    let n = n as i64;
    let w = x_weekday as i64;
    let n_days = if n >= 0 {
        n + (n + w - 1) / 5 * 2
    } else {
        -(-n + (-n + 5 - w) / 5 * 2)
    };
    proof {
        if n >= 0 {
            lemma_default_ahead(w as int, n as int);
        } else {
            lemma_default_back(w as int, -n);
        }
        lemma_nth_workday_is(
            plain(default_weekmask()),
            anchor_date(w as int),
            n as int,
            anchor_date(w as int) + n_days,
        );
    }
    n_days
}

} // verus!
