//! The business calendar: a week mask, its holidays, and what is worked out from them once.

use crate::holidays::HolidaySet;
use crate::model::CalendarModel;
use crate::offset_cache::{count_open, default_weekmask, OffsetCache};
use crate::weekday::weekday_of;
use vstd::prelude::*;

verus! {

/// A week mask and a set of holidays, with the number of open weekdays and, for a week
/// other than the default one, the cache of offsets within the week.
pub struct Calendar {
    weekmask: [bool; 7],
    n_weekdays: i32,
    holidays: HolidaySet,
    cache: Option<OffsetCache>,
}

impl View for Calendar {
    type V = CalendarModel;

    closed spec fn view(&self) -> CalendarModel {
        CalendarModel { weekmask: self.weekmask@, holidays: self.holidays@ }
    }
}

/// The calendar of a week mask and a list of holidays: the holidays of the calendar are
/// the dates of the list that fall on an open weekday.
pub open spec fn calendar_model(weekmask: Seq<bool>, holidays: Seq<i32>) -> CalendarModel {
    CalendarModel {
        weekmask,
        holidays: Set::new(
            |d: int|
                (exists|i: int| 0 <= i < holidays.len() && #[trigger] holidays[i] == d)
                    && weekmask[weekday_of(d) - 1],
        ),
    }
}

impl Calendar {
    /// The holidays are sorted and lie on open weekdays, the number of open weekdays is
    /// right, and the cache is there just for a week other than the default one.
    pub closed spec fn wf(&self) -> bool {
        &&& self.holidays.wf()
        &&& self@.wf()
        &&& self.n_weekdays == self@.week_length()
        &&& self.cache is Some <==> self.weekmask@ != default_weekmask()
        &&& self.cache is Some ==> self.cache->0.wf() && self.cache->0.weekmask() == self.weekmask@
    }

    /// A well-formed calendar has a well-formed model.
    pub proof fn lemma_wf(&self)
        requires
            self.wf(),
        ensures
            self@.wf(),
            0 <= self@.week_length() <= 7,
    {
        crate::model::lemma_week_count(self@, 0);
    }

    /// The calendar of a week mask (entry `w - 1` is `true` where weekday `w`, Monday = 1,
    /// is open) and a list of holidays in any order. Holidays on closed weekdays are
    /// dropped, repeated ones are kept once.
    pub fn new(weekmask: [bool; 7], holidays: &Vec<i32>) -> (calendar: Calendar)
        ensures
            calendar.wf(),
            calendar@ == calendar_model(weekmask@, holidays@),
            calendar@.weekmask == weekmask@,
            forall|d: int| #[trigger]
                calendar@.holidays.contains(d) <==> (exists|i: int|
                    0 <= i < holidays.len() && #[trigger] holidays[i] == d) && weekmask@[weekday_of(
                    d,
                ) - 1],
            forall|d: int| #[trigger]
                calendar@.is_workday(d) <==> weekmask@[weekday_of(d) - 1] && !(exists|i: int|
                    0 <= i < holidays.len() && #[trigger] holidays[i] == d),
    {
        let set = HolidaySet::build(holidays, &weekmask);
        let n_weekdays = count_open(&weekmask);
        let cache = if is_default(&weekmask) {
            None
        } else {
            Some(OffsetCache::build(&weekmask))
        };
        proof {
            set.lemma_view();
        }
        let calendar = Calendar { weekmask, n_weekdays, holidays: set, cache };
        assert(calendar@.holidays =~= calendar_model(weekmask@, holidays@).holidays);
        assert(calendar@ =~= calendar_model(weekmask@, holidays@));
        calendar
    }

    /// The calendar of a weekend mask (entry `w - 1` is `true` where weekday `w` is closed)
    /// and a list of holidays.
    pub fn from_weekend(weekend: [bool; 7], holidays: &Vec<i32>) -> (calendar: Calendar)
        ensures
            calendar.wf(),
            calendar@.weekmask.len() == 7,
            forall|i: int| 0 <= i < 7 ==> calendar@.weekmask[i] == !weekend@[i],
            forall|d: int| #[trigger]
                calendar@.holidays.contains(d) <==> (exists|i: int|
                    0 <= i < holidays.len() && #[trigger] holidays[i] == d) && !weekend@[weekday_of(
                    d,
                ) - 1],
    {
        let mut weekmask = [false; 7];
        let mut i: usize = 0;
        while i < 7
            invariant
                i <= 7,
                forall|j: int| 0 <= j < i ==> weekmask@[j] == !weekend@[j],
            decreases 7 - i,
        {
            weekmask[i] = !weekend[i];
            i += 1;
        }
        Calendar::new(weekmask, holidays)
    }

    /// The week mask.
    pub fn weekmask(&self) -> (mask: &[bool; 7])
        ensures
            mask@ == self@.weekmask,
    {
        &self.weekmask
    }

    /// Whether weekday `w` (Monday = 1) is open.
    pub fn is_open(&self, w: i32) -> (open: bool)
        requires
            1 <= w <= 7,
        ensures
            open == self@.weekmask[w - 1],
    {
        self.weekmask[(w - 1) as usize]
    }

    /// The number of open weekdays.
    pub fn n_weekdays(&self) -> (n: i32)
        requires
            self.wf(),
        ensures
            n == self@.week_length(),
            0 <= n <= 7,
    {
        proof {
            self.lemma_wf();
        }
        self.n_weekdays
    }

    /// The holidays.
    pub fn holidays(&self) -> (set: &HolidaySet)
        requires
            self.wf(),
        ensures
            set.wf(),
            set@ == self@.holidays,
    {
        &self.holidays
    }

    /// Whether the week is the default one, open from Monday to Friday.
    pub fn is_default_weekend(&self) -> (default: bool)
        requires
            self.wf(),
        ensures
            default == (self@.weekmask == default_weekmask()),
    {
        self.cache.is_none()
    }

    /// The cache of offsets within the week, which a week other than the default one has.
    pub fn cache(&self) -> (cache: Option<&OffsetCache>)
        requires
            self.wf(),
        ensures
            cache is Some <==> self@.weekmask != default_weekmask(),
            cache is Some ==> cache->0.wf() && cache->0.weekmask() == self@.weekmask,
    {
        self.cache.as_ref()
    }
}

/// Whether a week mask is the default one.
fn is_default(weekmask: &[bool; 7]) -> (default: bool)
    ensures
        default == (weekmask@ == default_weekmask()),
{
    let default = weekmask[0] && weekmask[1] && weekmask[2] && weekmask[3] && weekmask[4]
        && !weekmask[5] && !weekmask[6];
    proof {
        if default {
            assert(weekmask@ =~= default_weekmask());
        } else {
            assert(default_weekmask()[0] && default_weekmask()[1] && default_weekmask()[2]
                && default_weekmask()[3] && default_weekmask()[4] && !default_weekmask()[5]
                && !default_weekmask()[6]);
        }
    }
    default
}

} // verus!
