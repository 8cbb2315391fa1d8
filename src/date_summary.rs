//! Counts of indexed files per calendar day, the data behind the calendar
//! grid of the summary.

use vstd::prelude::*;
use vstd::string::*;
use crate::meta::{IndexFile, MetaValue, MetaVariable, UtcDateTime};

verus! {

broadcast use vstd::std_specs::hash::group_hash_axioms;

/// The key of a calendar day: `yyyymmdd` read as a decimal number, with the
/// year's sign in front.
pub open spec fn day_key(year: int, month: int, day: int) -> int {
    year * 10000 + month * 100 + day
}

/// Name of the metadata variable that holds the date a photo was taken.
pub open spec fn date_taken_name() -> Seq<char> {
    "DateTaken"@
}

/// Whether `v` holds the date a photo was taken.
pub open spec fn is_date_taken(v: MetaVariable) -> bool {
    v.name@ == date_taken_name() && v.value is Date
}

/// The date of the last variable of `meta` that holds the date a photo was
/// taken, and `fallback` when none does.
pub open spec fn date_taken(meta: Seq<MetaVariable>, fallback: UtcDateTime) -> UtcDateTime
    decreases meta.len(),
{
    if meta.len() == 0 {
        fallback
    } else if is_date_taken(meta.last()) {
        meta.last().value->Date_0
    } else {
        date_taken(meta.drop_last(), fallback)
    }
}

/// Number of variables of `meta` that hold the date a photo was taken.
pub open spec fn count_date_taken(meta: Seq<MetaVariable>) -> nat
    decreases meta.len(),
{
    if meta.len() == 0 {
        0
    } else {
        count_date_taken(meta.drop_last()) + if is_date_taken(meta.last()) {
            1nat
        } else {
            0nat
        }
    }
}

/// Number of files per day, keyed by `day_key`, and where their dates came
/// from.
pub struct DateSummary {
    pub dates: std::collections::HashMap<i64, usize>,
    /// Number of dates added.
    pub count: usize,
    /// Months drawn on one row of the grid, if rows are wrapped.
    pub months_per_row: Option<usize>,
    /// Files whose date came from their metadata.
    pub exif_dates: u64,
    /// Files whose date came from the file system.
    pub file_dates: u64,
    /// The earliest and the latest month, as year and month, of the dates
    /// added.
    pub span: Option<((i32, u32), (i32, u32))>,
}

/// Whether month `a` comes before month `b`; months are (year, month).
pub open spec fn month_lt(a: (i32, u32), b: (i32, u32)) -> bool {
    a.0 < b.0 || (a.0 == b.0 && a.1 < b.1)
}

/// The span of months after a date of month `m` is added to `span`.
pub open spec fn widen(span: Option<((i32, u32), (i32, u32))>, m: (i32, u32)) -> Option<((i32, u32), (i32, u32))> {
    match span {
        None => Some((m, m)),
        Some((a, b)) => Some((if month_lt(m, a) { m } else { a }, if month_lt(b, m) { m } else { b })),
    }
}

/// Whether `m` is a month of a year in the range of dates.
pub open spec fn valid_month(m: (i32, u32)) -> bool {
    crate::meta::MIN_YEAR <= m.0 <= crate::meta::MAX_YEAR && 1 <= m.1 <= 12
}

impl DateSummary {
    pub open spec fn wf(&self) -> bool {
        &&& forall|k: i64| #[trigger] self.dates@.contains_key(k) ==> self.dates@[k] <= self.count
        &&& (self.span matches Some((a, b)) ==> valid_month(a) && valid_month(b) && !month_lt(b, a))
    }

    /// `next` is this summary after the date of `f` was added: the date it
    /// was taken, or else the date it was created.
    pub open spec fn after_file(&self, f: IndexFile, next: DateSummary) -> bool {
        let date = date_taken(f.meta@, f.created_at);
        let key = day_key(date.year as int, date.month as int, date.day as int);
        &&& next.wf()
        &&& next.count == self.count + 1
        &&& next.dates@ == self.dates@.insert(key as i64, (self.day_count(key) + 1) as usize)
        &&& next.exif_dates == self.exif_dates + count_date_taken(f.meta@)
        &&& next.file_dates == self.file_dates + if count_date_taken(f.meta@) == 0 {
            1int
        } else {
            0int
        }
        &&& next.months_per_row == self.months_per_row
        &&& next.span == widen(self.span, (date.year, date.month))
    }

    /// Whether the date of `f` can be added: its values are well formed and
    /// the counters have room.
    pub open spec fn can_add_file(&self, f: IndexFile) -> bool {
        &&& self.wf()
        &&& f.created_at.wf()
        &&& forall|i: int| 0 <= i < f.meta@.len() ==> (#[trigger] f.meta@[i]).value.wf()
        &&& self.count < usize::MAX
        &&& self.exif_dates + f.meta@.len() <= u64::MAX
        &&& self.file_dates < u64::MAX
    }

    /// Number of dates added on the day with key `k`.
    pub open spec fn day_count(&self, k: int) -> nat {
        if self.dates@.contains_key(k as i64) {
            self.dates@[k as i64] as nat
        } else {
            0
        }
    }

    pub fn new() -> (r: DateSummary)
        ensures
            r.wf(),
            r.dates@ == Map::<i64, usize>::empty(),
            r.count == 0,
            r.months_per_row is None,
            r.exif_dates == 0,
            r.file_dates == 0,
            r.span is None,
    {
        DateSummary {
            dates: std::collections::HashMap::new(),
            count: 0,
            months_per_row: None,
            exif_dates: 0,
            file_dates: 0,
            span: None,
        }
    }

    /// A summary whose grid wraps after `months_per_row` months.
    pub fn new_wrapping(months_per_row: usize) -> (r: DateSummary)
        ensures
            r.wf(),
            r.dates@ == Map::<i64, usize>::empty(),
            r.count == 0,
            r.months_per_row == Some(months_per_row),
            r.exif_dates == 0,
            r.file_dates == 0,
            r.span is None,
    {
        DateSummary {
            dates: std::collections::HashMap::new(),
            count: 0,
            months_per_row: Some(months_per_row),
            exif_dates: 0,
            file_dates: 0,
            span: None,
        }
    }

    /// Adds one date: its day's count goes up by one.
    pub fn add_date(&mut self, date: &UtcDateTime)
        requires
            old(self).wf(),
            date.wf(),
            old(self).count < usize::MAX,
        ensures
            final(self).wf(),
            final(self).count == old(self).count + 1,
            final(self).dates@ == old(self).dates@.insert(
                day_key(date.year as int, date.month as int, date.day as int) as i64,
                (old(self).day_count(day_key(date.year as int, date.month as int, date.day as int))
                    + 1) as usize,
            ),
            final(self).months_per_row == old(self).months_per_row,
            final(self).exif_dates == old(self).exif_dates,
            final(self).file_dates == old(self).file_dates,
            final(self).span == widen(old(self).span, (date.year, date.month)),
    {
        let m = (date.year, date.month);
        self.span = match self.span {
            None => Some((m, m)),
            Some((a, b)) => Some(
                (
                    if m.0 < a.0 || (m.0 == a.0 && m.1 < a.1) {
                        m
                    } else {
                        a
                    },
                    if b.0 < m.0 || (b.0 == m.0 && b.1 < m.1) {
                        m
                    } else {
                        b
                    },
                ),
            ),
        };
        let key: i64 = date.year as i64 * 10000 + date.month as i64 * 100 + date.day as i64;
        let current: usize = match self.dates.get(&key) {
            Some(n) => *n,
            None => 0,
        };
        self.count = self.count + 1;
        self.dates.insert(key, current + 1);
    }

    /// Adds the date of an indexed file: the date it was taken, from its
    /// metadata, or else the date it was created.
    pub fn add_fileindex(&mut self, f: &IndexFile)
        requires
            old(self).can_add_file(*f),
        ensures
            old(self).after_file(*f, *final(self)),
    {
        let mut date = f.created_at;
        let mut found: u64 = 0;
        let mut i: usize = 0;
        while i < f.meta.len()
            invariant
                i <= f.meta@.len(),
                found == count_date_taken(f.meta@.subrange(0, i as int)),
                found <= i,
                date == date_taken(f.meta@.subrange(0, i as int), f.created_at),
                date.wf(),
                f.created_at.wf(),
                forall|j: int| 0 <= j < f.meta@.len() ==> (#[trigger] f.meta@[j]).value.wf(),
            decreases f.meta@.len() - i,
        {
            let v = &f.meta[i];
            assert(f.meta@.subrange(0, i + 1).drop_last() =~= f.meta@.subrange(0, i as int));
            if is_date_taken_name(&v.name) {
                if let MetaValue::Date(d) = &v.value {
                    assert(f.meta@[i as int].value.wf());
                    date = *d;
                    found = found + 1;
                }
            }
            i = i + 1;
        }
        assert(f.meta@.subrange(0, f.meta@.len() as int) =~= f.meta@);
        proof {
            lemma_count_date_taken_bounded(f.meta@);
        }
        self.exif_dates = self.exif_dates + found;
        if found == 0 {
            self.file_dates = self.file_dates + 1;
        }
        self.add_date(&date);
    }
}

proof fn lemma_count_date_taken_bounded(meta: Seq<MetaVariable>)
    ensures
        count_date_taken(meta) <= meta.len(),
    decreases meta.len(),
{
    if meta.len() > 0 {
        lemma_count_date_taken_bounded(meta.drop_last());
    }
}

fn is_date_taken_name(name: &String) -> (r: bool)
    ensures
        r == (name@ == date_taken_name()),
{
    *name == String::from_str("DateTaken")
}

} // verus!
