//! The calendar grid of a date summary: one column per week, one line per
//! weekday, and a cell per day holding that day's count.
//!
//! The grid is cut into rows. A row starts on a day, takes the following
//! days one by one, and ends after the last month of the summary, or, when
//! rows are wrapped, once more months have begun in it than a row may hold.

use vstd::prelude::*;
use crate::date_summary::{day_key, month_lt, DateSummary};
use crate::meta::{days_in_month, i64_text, int_text, MAX_YEAR, MIN_YEAR};

verus! {

broadcast use vstd::std_specs::hash::group_hash_axioms;

/// A calendar day.
#[derive(Debug, Clone, Copy, PartialEq, Eq, Structural)]
pub struct Day {
    pub year: i32,
    pub month: u32,
    pub day: u32,
}

impl Day {
    pub open spec fn wf(&self) -> bool {
        &&& MIN_YEAR <= self.year <= MAX_YEAR
        &&& 1 <= self.month <= 12
        &&& 1 <= self.day <= days_in_month(self.year as int, self.month as int)
    }

    pub open spec fn month_of(&self) -> (i32, u32) {
        (self.year, self.month)
    }

    /// Whether this is the last day that a date can have.
    pub open spec fn is_last(&self) -> bool {
        self.year == MAX_YEAR && self.month == 12 && self.day == 31
    }
}

/// The day after `d`.
pub open spec fn next_day(d: Day) -> Day {
    if d.day < days_in_month(d.year as int, d.month as int) {
        Day { year: d.year, month: d.month, day: (d.day + 1) as u32 }
    } else if d.month < 12 {
        Day { year: d.year, month: (d.month + 1) as u32, day: 1 }
    } else {
        Day { year: (d.year + 1) as i32, month: 1, day: 1 }
    }
}

/// The day `i` days after `s`.
pub open spec fn nth_day(s: Day, i: nat) -> Day
    decreases i,
{
    if i == 0 {
        s
    } else {
        next_day(nth_day(s, (i - 1) as nat))
    }
}

/// The day after `d`, unless `d` is the last day a date can have.
fn following_day(d: &Day) -> (r: Option<Day>)
    requires
        d.wf(),
    ensures
        d.is_last() <==> r is None,
        r matches Some(n) ==> n == next_day(*d) && n.wf(),
{
    let len = crate::meta::month_length(d.year, d.month);
    if d.day < len {
        Some(Day { year: d.year, month: d.month, day: d.day + 1 })
    } else if d.month < 12 {
        Some(Day { year: d.year, month: d.month + 1, day: 1 })
    } else if d.year < MAX_YEAR {
        Some(Day { year: d.year + 1, month: 1, day: 1 })
    } else {
        None
    }
}

/// Number of days of the proleptic Gregorian calendar before the first day
/// of year `y`, counted from the first day of year 1.
pub open spec fn days_before_year(y: int) -> int {
    let p = y - 1;
    365 * p + p / 4 - p / 100 + p / 400
}

/// Number of days of year `y` before the first day of month `m`.
pub open spec fn days_before_month(y: int, m: int) -> int
    decreases m,
{
    if m <= 1 {
        0
    } else {
        days_before_month(y, m - 1) + days_in_month(y, m - 1)
    }
}

/// Number of days from 0001-01-01 to `d`.
pub open spec fn day_number(d: Day) -> int {
    days_before_year(d.year as int) + days_before_month(d.year as int, d.month as int) + d.day - 1
}

/// The weekday of `d`, counted in days from Sunday: 0001-01-01 was a Monday.
pub open spec fn weekday_of(d: Day) -> u32 {
    ((day_number(d) + 1) % 7) as u32
}

/// Relies on chrono's `NaiveDate::from_ymd_opt`, which accepts every
/// well-formed day, and on `Datelike::weekday` with
/// `Weekday::num_days_from_sunday`, which is 0 for Sunday to 6 for Saturday
/// in the proleptic Gregorian calendar.
#[verifier::external_body]
fn weekday_from_sunday(d: &Day) -> (r: u32)
    requires
        d.wf(),
    ensures
        r == weekday_of(*d),
        r < 7,
{
    let date = chrono::NaiveDate::from_ymd_opt(d.year, d.month, d.day).unwrap();
    chrono::Datelike::weekday(&date).num_days_from_sunday()
}

/// Number of Saturdays among the first `n` days from `s`.
pub open spec fn saturdays(s: Day, n: nat) -> nat
    decreases n,
{
    if n == 0 {
        0
    } else {
        saturdays(s, (n - 1) as nat) + if weekday_of(nth_day(s, (n - 1) as nat)) == 6 {
            1nat
        } else {
            0nat
        }
    }
}

/// The month of the day before day `i` of a row from `s`; for the row's
/// first day, `prev_month`, the month of the day before the row.
pub open spec fn month_before(s: Day, prev_month: u32, i: nat) -> u32 {
    if i == 0 {
        prev_month
    } else {
        nth_day(s, (i - 1) as nat).month
    }
}

/// Whether a month begins on day `i` of a row from `s`.
pub open spec fn month_begins(s: Day, prev_month: u32, i: nat) -> bool {
    nth_day(s, i).month != month_before(s, prev_month, i)
}

/// The columns where months begin among the first `n` days of a row from
/// `s`: the column just after the day on which each begins.
pub open spec fn month_breaks(s: Day, prev_month: u32, n: nat) -> Seq<usize>
    decreases n,
{
    if n == 0 {
        Seq::empty()
    } else {
        let before = month_breaks(s, prev_month, (n - 1) as nat);
        if month_begins(s, prev_month, (n - 1) as nat) {
            before.push(saturdays(s, n) as usize)
        } else {
            before
        }
    }
}

/// One day of the grid.
#[derive(Debug, Clone, Copy, PartialEq, Eq, Structural)]
pub struct GridCell {
    /// The week, counted from the row's first column.
    pub column: usize,
    /// Days from Sunday.
    pub weekday: u32,
    /// Number of dates added on the day.
    pub count: usize,
}

/// A piece of a row's heading.
#[derive(Debug, Clone, Copy, PartialEq, Eq, Structural)]
pub enum HeadingPart {
    /// Blank columns.
    Gap(usize),
    /// The label of a month, counted from 0 for January.
    Month(u32),
    /// The label of a year that begins within the row.
    Year(i64),
}

/// Width of the label of year `y`: a corner, its digits and a blank.
pub open spec fn year_label_width(y: int) -> int {
    2 + int_text(y).len() as int
}

/// The month after month `m`, counted from 0.
pub open spec fn month_after(m: int) -> int {
    if m + 1 >= 12 {
        0
    } else {
        m + 1
    }
}

/// The heading pieces for the month breaks `breaks`, when the heading has
/// reached column `pos`, the next month label is `m` and the current year
/// is `year`. A month label is placed at its break unless the heading has
/// already run past it; a year label follows each December.
pub open spec fn heading_parts(pos: int, m: int, year: int, breaks: Seq<usize>) -> Seq<HeadingPart>
    decreases breaks.len(),
{
    if breaks.len() == 0 {
        Seq::empty()
    } else {
        let t = breaks[0] as int;
        let placed = if pos <= t {
            seq![HeadingPart::Gap((t - pos) as usize), HeadingPart::Month(m as u32)]
        } else {
            Seq::empty()
        };
        let pos1 = if pos <= t {
            t + 5
        } else {
            pos
        };
        if m + 1 >= 12 {
            placed + seq![HeadingPart::Year((year + 1) as i64)] + heading_parts(
                pos1 + year_label_width(year + 1),
                0,
                year + 1,
                breaks.drop_first(),
            )
        } else {
            placed + heading_parts(pos1, m + 1, year, breaks.drop_first())
        }
    }
}

/// The heading of a row that starts in month `start_month` (1 to 12) of
/// `start_year`, with month breaks `breaks`.
pub open spec fn heading(start_year: int, start_month: int, breaks: Seq<usize>) -> Seq<HeadingPart> {
    seq![HeadingPart::Month((start_month - 1) as u32)] + heading_parts(
        5,
        month_after(start_month - 1),
        start_year,
        breaks,
    )
}

/// How dark a day is drawn: 3 above ten dates, 2 above five, 1 for any,
/// and 0 for none.
pub open spec fn shade_spec(count: nat) -> u8 {
    if count > 10 {
        3
    } else if count > 5 {
        2
    } else if count > 0 {
        1
    } else {
        0
    }
}

/// Computes `shade_spec`.
pub fn shade(count: usize) -> (r: u8)
    ensures
        r == shade_spec(count as nat),
{
    if count > 10 {
        3
    } else if count > 5 {
        2
    } else if count > 0 {
        1
    } else {
        0
    }
}

pub open spec fn pow10(k: nat) -> nat
    decreases k,
{
    if k == 0 {
        1
    } else {
        10 * pow10((k - 1) as nat)
    }
}

proof fn lemma_nat_text_short(n: nat, k: nat)
    requires
        k >= 1,
        n < pow10(k),
    ensures
        crate::meta::nat_text(n).len() <= k,
    decreases k,
{
    if n >= 10 {
        assert(k >= 2) by {
            if k == 1 {
                assert(pow10(1) == 10) by {
                    reveal_with_fuel(pow10, 2);
                }
            }
        }
        assert(n / 10 < pow10((k - 1) as nat)) by (nonlinear_arith)
            requires
                n < pow10(k),
                pow10(k) == 10 * pow10((k - 1) as nat),
        ;
        lemma_nat_text_short(n / 10, (k - 1) as nat);
    }
}

proof fn lemma_year_text_short(y: int)
    requires
        -10_000_000_000 < y < 10_000_000_000,
    ensures
        int_text(y).len() <= 11,
{
    assert(pow10(10) == 10_000_000_000) by {
        reveal_with_fuel(pow10, 11);
    }
    if y < 0 {
        lemma_nat_text_short((-y) as nat, 10);
    } else {
        lemma_nat_text_short(y as nat, 10);
    }
}

/// Computes `heading`.
fn heading_of(start_year: i32, start_month: u32, breaks: &Vec<usize>) -> (r: Vec<HeadingPart>)
    requires
        1 <= start_month <= 12,
        breaks@.len() <= 300_000_000,
        forall|j: int| 0 <= j < breaks@.len() ==> #[trigger] breaks@[j] <= 300_000_000,
    ensures
        r@ == heading(start_year as int, start_month as int, breaks@),
{
    let mut parts: Vec<HeadingPart> = vec![HeadingPart::Month(start_month - 1)];
    let mut pos: u64 = 5;
    let mut m: u32 = if start_month >= 12 {
        0
    } else {
        start_month
    };
    let mut year: i64 = start_year as i64;
    let mut j: usize = 0;
    assert(breaks@.subrange(0, breaks@.len() as int) =~= breaks@);
    assert(parts@ + heading_parts(pos as int, m as int, year as int, breaks@.subrange(0, breaks@.len() as int))
        =~= heading(start_year as int, start_month as int, breaks@));
    while j < breaks.len()
        invariant
            j <= breaks@.len(),
            breaks@.len() <= 300_000_000,
            forall|k: int| 0 <= k < breaks@.len() ==> #[trigger] breaks@[k] <= 300_000_000,
            m < 12,
            start_year as int <= year <= start_year as int + j,
            pos <= 300_000_005 + 30 * j,
            parts@ + heading_parts(pos as int, m as int, year as int, breaks@.subrange(j as int, breaks@.len() as int))
                == heading(start_year as int, start_month as int, breaks@),
        decreases breaks@.len() - j,
    {
        let ghost rest = breaks@.subrange(j as int, breaks@.len() as int);
        let ghost before = parts@;
        assert(rest.drop_first() =~= breaks@.subrange(j + 1, breaks@.len() as int));
        let t = breaks[j];
        let ghost placed = if pos <= t {
            seq![HeadingPart::Gap((t - pos) as usize), HeadingPart::Month(m as u32)]
        } else {
            Seq::<HeadingPart>::empty()
        };
        if pos <= t as u64 {
            parts.push(HeadingPart::Gap(t - pos as usize));
            parts.push(HeadingPart::Month(m));
            pos = t as u64 + 5;
        }
        assert(parts@ =~= before + placed);
        if m + 1 >= 12 {
            m = 0;
            year = year + 1;
            let label = i64_text(year);
            proof {
                lemma_year_text_short(year as int);
            }
            pos = pos + 2 + label.unicode_len() as u64;
            parts.push(HeadingPart::Year(year));
            assert(parts@ =~= before + placed + seq![HeadingPart::Year(year)]);
        } else {
            m = m + 1;
        }
        j = j + 1;
    }
    assert(breaks@.subrange(j as int, breaks@.len() as int) =~= Seq::<usize>::empty());
    assert(parts@ =~= parts@ + Seq::<HeadingPart>::empty());
    parts
}

/// One row of the grid.
pub struct GridRow {
    pub first_day: Day,
    pub last_day: Day,
    /// The row's days in order, from `first_day` to `last_day`.
    pub cells: Vec<GridCell>,
    /// The columns where months begin.
    pub month_breaks: Vec<usize>,
    /// One more than the number of Saturdays in the row.
    pub width: usize,
    /// The labels above the row.
    pub heading: Vec<HeadingPart>,
}

/// Position of day `d` within the range of months that ends with `last`:
/// it goes down with each following day.
pub open spec fn measure(d: Day, last: (i32, u32)) -> int {
    ((last.0 as int) * 12 + last.1 - (d.year as int) * 12 - d.month) * 32 + 32 - d.day
}

proof fn lemma_measure_decreases(d: Day, last: (i32, u32))
    requires
        d.wf(),
        !d.is_last(),
    ensures
        measure(next_day(d), last) < measure(d, last),
        next_day(d).wf(),
{
}

impl DateSummary {
    /// Whether the grid has ended before day `d`: `d` lies after the
    /// summary's last month.
    pub open spec fn past_end(&self, d: Day) -> bool {
        month_lt(self.span->Some_0.1, d.month_of())
    }

    /// Whether a row from `s` ends with its day `i`.
    pub open spec fn row_ends(&self, s: Day, prev_month: u32, i: nat) -> bool {
        let d = nth_day(s, i);
        ||| (month_begins(s, prev_month, i) && (self.months_per_row matches Some(w)
            && month_breaks(s, prev_month, i + 1).len() > w))
        ||| d.is_last()
        ||| self.past_end(next_day(d))
    }

    /// The cell of day `i` of a row from `s`.
    pub open spec fn cell(&self, s: Day, i: nat) -> GridCell {
        let d = nth_day(s, i);
        GridCell {
            column: saturdays(s, i) as usize,
            weekday: weekday_of(d),
            count: self.day_count(day_key(d.year as int, d.month as int, d.day as int)) as usize,
        }
    }

    /// `r` is the row of the grid that starts on `s`, after a day of month
    /// `prev_month`.
    pub open spec fn is_row(&self, r: GridRow, s: Day, prev_month: u32) -> bool {
        let n = r.cells@.len();
        &&& n >= 1
        &&& r.first_day == s
        &&& r.last_day == nth_day(s, (n - 1) as nat)
        &&& forall|i: int| 0 <= i < n ==> #[trigger] r.cells@[i] == self.cell(s, i as nat)
        &&& r.month_breaks@ == month_breaks(s, prev_month, n)
        &&& r.width == saturdays(s, n) + 1
        &&& r.heading@ == heading(s.year as int, s.month as int, r.month_breaks@)
        &&& forall|i: int| 0 <= i < n - 1 ==> !#[trigger] self.row_ends(s, prev_month, i as nat)
        &&& self.row_ends(s, prev_month, (n - 1) as nat)
    }

    /// The first day of the grid: the first day of the summary's first month.
    pub open spec fn grid_start(&self) -> Day {
        Day { year: self.span->Some_0.0.0, month: self.span->Some_0.0.1, day: 1 }
    }

    /// `rows` is the grid: its first row starts on `grid_start`, each other
    /// row on the day after the row before, and the last row is the one
    /// whose following day is past the end.
    pub open spec fn is_grid(&self, rows: Seq<GridRow>) -> bool {
        &&& rows.len() >= 1
        &&& self.is_row(rows[0], self.grid_start(), self.grid_start().month)
        &&& forall|k: int|
            0 < k < rows.len() ==> self.is_row(
                #[trigger] rows[k],
                next_day(rows[k - 1].last_day),
                rows[k - 1].last_day.month,
            )
        &&& forall|k: int|
            0 <= k < rows.len() - 1 ==> !(#[trigger] rows[k]).last_day.is_last() && !self.past_end(
                next_day(rows[k].last_day),
            )
        &&& (rows.last().last_day.is_last() || self.past_end(next_day(rows.last().last_day)))
    }

    fn count_on(&self, d: &Day) -> (r: usize)
        ensures
            r == self.day_count(day_key(d.year as int, d.month as int, d.day as int)),
    {
        let key: i64 = d.year as i64 * 10000 + d.month as i64 * 100 + d.day as i64;
        match self.dates.get(&key) {
            Some(n) => *n,
            None => 0,
        }
    }

    fn is_past_end(&self, d: &Day) -> (r: bool)
        requires
            self.span is Some,
        ensures
            r == self.past_end(*d),
    {
        let last = self.span.unwrap().1;
        last.0 < d.year || (last.0 == d.year && last.1 < d.month)
    }

    /// The row of the grid that starts on `s`, after a day of month
    /// `prev_month`.
    fn grid_row(&self, s: Day, prev_month: u32) -> (r: GridRow)
        requires
            self.wf(),
            self.span is Some,
            s.wf(),
            !self.past_end(s),
        ensures
            self.is_row(r, s, prev_month),
            measure(r.last_day, self.span->Some_0.1) <= measure(s, self.span->Some_0.1),
            r.last_day.wf(),
    {
        let ghost last = self.span->Some_0.1;
        let mut d = s;
        let mut i: usize = 0;
        let mut sats: usize = 0;
        let mut prev = prev_month;
        let mut cells: Vec<GridCell> = Vec::new();
        let mut breaks: Vec<usize> = Vec::new();
        assert(measure(s, last) <= 300_000_000);
        loop
            invariant
                measure(s, last) <= 300_000_000,
                s.wf(),
                self.wf(),
                self.span is Some,
                last == self.span->Some_0.1,
                d.wf(),
                !self.past_end(d),
                d == nth_day(s, i as nat),
                cells@.len() == i,
                sats == saturdays(s, i as nat),
                sats <= i,
                prev == month_before(s, prev_month, i as nat),
                breaks@ == month_breaks(s, prev_month, i as nat),
                breaks@.len() <= i,
                forall|k: int| 0 <= k < breaks@.len() ==> #[trigger] breaks@[k] <= sats,
                forall|j: int| 0 <= j < i ==> #[trigger] cells@[j] == self.cell(s, j as nat),
                forall|j: int| 0 <= j < i ==> !#[trigger] self.row_ends(s, prev_month, j as nat),
                i + measure(d, last) <= measure(s, last),
                measure(d, last) >= 1,
            decreases measure(d, last),
        {
            let weekday = weekday_from_sunday(&d);
            let count = self.count_on(&d);
            cells.push(GridCell { column: sats, weekday, count });
            assert(cells@[i as int] == self.cell(s, i as nat));
            if weekday == 6 {
                sats = sats + 1;
            }
            assert(sats == saturdays(s, (i + 1) as nat));
            let begins = d.month != prev;
            if begins {
                breaks.push(sats);
                prev = d.month;
            }
            assert(breaks@ == month_breaks(s, prev_month, (i + 1) as nat));
            let wrapped = begins && match self.months_per_row {
                Some(w) => breaks.len() > w,
                None => false,
            };
            let next = following_day(&d);
            let ends = match next {
                None => true,
                Some(n) => wrapped || self.is_past_end(&n),
            };
            assert(ends == self.row_ends(s, prev_month, i as nat));
            if ends {
                let ghost n = cells@.len();
                assert(nth_day(s, (n - 1) as nat) == d);
                let heading = heading_of(s.year, s.month, &breaks);
                return GridRow {
                    first_day: s,
                    last_day: d,
                    cells,
                    month_breaks: breaks,
                    width: sats + 1,
                    heading,
                };
            }
            proof {
                lemma_measure_decreases(d, last);
            }
            d = next.unwrap();
            i = i + 1;
            assert(prev == month_before(s, prev_month, i as nat));
        }
    }

    /// The calendar grid of the dates added; `None` when none was added.
    pub fn grid(&self) -> (r: Option<Vec<GridRow>>)
        requires
            self.wf(),
        ensures
            self.span is None ==> r is None,
            self.span is Some ==> r is Some && self.is_grid(r->Some_0@),
    {
        let (first, last) = match self.span {
            Some(span) => span,
            None => return None,
        };
        let mut s = Day { year: first.0, month: first.1, day: 1 };
        let mut prev = first.1;
        let mut rows: Vec<GridRow> = Vec::new();
        loop
            invariant
                self.wf(),
                self.span == Some((first, last)),
                s.wf(),
                !self.past_end(s),
                rows@.len() == 0 ==> s == self.grid_start() && prev == s.month,
                rows@.len() > 0 ==> s == next_day(rows@.last().last_day) && prev
                    == rows@.last().last_day.month,
                rows@.len() > 0 ==> self.is_row(rows@[0], self.grid_start(), self.grid_start().month),
                forall|k: int|
                    0 < k < rows@.len() ==> self.is_row(
                        #[trigger] rows@[k],
                        next_day(rows@[k - 1].last_day),
                        rows@[k - 1].last_day.month,
                    ),
                forall|k: int|
                    0 <= k < rows@.len() ==> !(#[trigger] rows@[k]).last_day.is_last()
                        && !self.past_end(next_day(rows@[k].last_day)),
                measure(s, last) >= 1,
            decreases measure(s, last),
        {
            let row = self.grid_row(s, prev);
            let end = row.last_day;
            let ghost before = rows@;
            rows.push(row);
            assert(rows@.last() == row);
            assert(forall|k: int| 0 <= k < before.len() ==> rows@[k] == before[k]);
            match following_day(&end) {
                None => {
                    return Some(rows);
                },
                Some(n) => {
                    if self.is_past_end(&n) {
                        return Some(rows);
                    }
                    proof {
                        lemma_measure_decreases(end, last);
                    }
                    s = n;
                    prev = end.month;
                },
            }
        }
    }
}

} // verus!
