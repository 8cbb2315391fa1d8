//! The summary of a listing: the calendar of dates, and the value counters
//! that the summary options ask for.

use vstd::prelude::*;
use vstd::string::*;
use crate::date_summary::DateSummary;
use crate::meta::IndexFile;
use crate::text::{split_on, split_text, texts, trim_text, trimmed};
use crate::order::text_le;
use crate::value_counter::ValueCounter;

verus! {

/// The options, separated by `;` and trimmed.
pub open spec fn option_pieces(options: Option<String>) -> Seq<Seq<char>> {
    match options {
        Some(o) => split_on(o@, ';').map_values(|p: Seq<char>| trimmed(p)),
        None => Seq::empty(),
    }
}

/// Whether one of the options asks for the calendar to wrap.
pub open spec fn wants_wrap(pieces: Seq<Seq<char>>) -> bool {
    exists|i: int| 0 <= i < pieces.len() && pieces[i] == "wrap"@
}

/// Whether an option asks to count values, as `count:` and variable names.
pub open spec fn is_count_request(p: Seq<char>) -> bool {
    p.len() >= 6 && p.subrange(0, 6) == "count:"@
}

/// The variables of each option that asks to count values, in order: the
/// names after `count:`, separated by commas.
pub open spec fn count_requests(pieces: Seq<Seq<char>>) -> Seq<Seq<Seq<char>>>
    decreases pieces.len(),
{
    if pieces.len() == 0 {
        Seq::empty()
    } else {
        let rest = count_requests(pieces.drop_last());
        let p = pieces.last();
        if is_count_request(p) {
            rest.push(split_on(p.subrange(6, p.len() as int), ','))
        } else {
            rest
        }
    }
}

/// The number of months per calendar row when the calendar wraps.
pub const WRAP_MONTHS: usize = 8;

pub struct SummaryStats {
    pub dates: DateSummary,
    pub counters: Vec<ValueCounter>,
}

impl SummaryStats {
    /// A summary for the options `options`: the calendar wraps after eight
    /// months if one option is `wrap`, and each option `count:a,b,...`
    /// adds a counter of the variables `a`, `b`, ...
    pub fn new(options: &Option<String>) -> (r: SummaryStats)
        ensures
            r.wf(),
            ({
                let pieces = option_pieces(*options);
                let requests = count_requests(pieces);
                &&& r.dates.wf()
                &&& r.dates.count == 0
                &&& r.dates.dates@ == Map::<i64, usize>::empty()
                &&& r.dates.span is None
                &&& r.dates.exif_dates == 0
                &&& r.dates.file_dates == 0
                &&& r.dates.months_per_row == if wants_wrap(pieces) {
                    Some(WRAP_MONTHS)
                } else {
                    None
                }
                &&& r.counters@.len() == requests.len()
                &&& forall|i: int|
                    0 <= i < requests.len() ==> {
                        let c = #[trigger] r.counters@[i];
                        &&& c.wf()
                        &&& texts(c.variables@).to_multiset() == requests[i].to_multiset()
                        &&& forall|a: int, b: int|
                            0 <= a < b < c.variables@.len() ==> text_le(
                                #[trigger] c.variables@[a]@,
                                #[trigger] c.variables@[b]@,
                            )
                        &&& c.counts@.len() == 0
                        &&& c.added == 0
                        &&& forall|j: int| 0 <= j < c.values@.len() ==> (#[trigger] c.values@[j])@.len() == 0
                    }
            }),
    {
        let pieces = trimmed_pieces(options);
        let ghost all = texts(pieces@);
        let mut wrap = false;
        let mut counters: Vec<ValueCounter> = Vec::new();
        let mut j: usize = 0;
        while j < pieces.len()
            invariant
                j <= pieces@.len(),
                all == texts(pieces@),
                all == option_pieces(*options),
                wrap == exists|k: int| 0 <= k < j && all[k] == "wrap"@,
                counters@.len() == count_requests(all.subrange(0, j as int)).len(),
                forall|i: int|
                    0 <= i < counters@.len() ==> {
                        let c = #[trigger] counters@[i];
                        &&& c.wf()
                        &&& texts(c.variables@).to_multiset() == count_requests(
                            all.subrange(0, j as int),
                        )[i].to_multiset()
                        &&& forall|a: int, b: int|
                            0 <= a < b < c.variables@.len() ==> text_le(
                                #[trigger] c.variables@[a]@,
                                #[trigger] c.variables@[b]@,
                            )
                        &&& c.counts@.len() == 0
                        &&& c.added == 0
                        &&& forall|k: int| 0 <= k < c.values@.len() ==> (#[trigger] c.values@[k])@.len() == 0
                    },
            decreases pieces@.len() - j,
        {
            let p = pieces[j].as_str();
            let ghost before = all.subrange(0, j as int);
            assert(all.subrange(0, j + 1).drop_last() =~= before);
            assert(all.subrange(0, j + 1).last() == p@);
            if pieces[j] == String::from_str("wrap") {
                wrap = true;
            }
            let n = p.unicode_len();
            if n >= 6 && String::from_str(p.substring_char(0, 6)) == String::from_str("count:") {
                let variables = split_text(p.substring_char(6, n), ',');
                counters.push(ValueCounter::new(variables));
            }
            j = j + 1;
        }
        assert(all.subrange(0, j as int) =~= all);
        let dates = if wrap {
            DateSummary::new_wrapping(WRAP_MONTHS)
        } else {
            DateSummary::new()
        };
        SummaryStats { dates, counters }
    }

    pub open spec fn wf(&self) -> bool {
        &&& self.dates.wf()
        &&& forall|i: int| 0 <= i < self.counters@.len() ==> (#[trigger] self.counters@[i]).wf()
    }

    /// Whether `f` can be added to every summary.
    pub open spec fn can_add_file(&self, f: IndexFile) -> bool {
        &&& self.dates.can_add_file(f)
        &&& forall|i: int| 0 <= i < self.counters@.len() ==> (#[trigger] self.counters@[i]).can_add_file(f)
    }

    /// Computes `can_add_file` for files whose values are well formed.
    pub fn can_add(&self, f: &IndexFile) -> (r: bool)
        requires
            self.wf(),
            f.created_at.wf(),
            forall|i: int| 0 <= i < f.meta@.len() ==> (#[trigger] f.meta@[i]).value.wf(),
        ensures
            r == self.can_add_file(*f),
    {
        if self.dates.count == usize::MAX || self.dates.file_dates == u64::MAX || f.meta.len() as u64
            > u64::MAX - self.dates.exif_dates {
            return false;
        }
        let mut i: usize = 0;
        while i < self.counters.len()
            invariant
                i <= self.counters@.len(),
                forall|k: int| 0 <= k < i ==> (#[trigger] self.counters@[k]).added < usize::MAX,
            decreases self.counters@.len() - i,
        {
            if self.counters[i].added == usize::MAX {
                return false;
            }
            i = i + 1;
        }
        true
    }

    /// Adds `f` to every summary.
    pub fn add(&mut self, f: &IndexFile)
        requires
            old(self).can_add_file(*f),
        ensures
            final(self).wf(),
            old(self).dates.after_file(*f, final(self).dates),
            final(self).counters@.len() == old(self).counters@.len(),
            forall|i: int|
                0 <= i < old(self).counters@.len() ==> old(self).counters@[i].after_file(
                    *f,
                    #[trigger] final(self).counters@[i],
                ),
    {
        self.dates.add_fileindex(f);
        let ghost dates_after = self.dates;
        let ghost before = self.counters@;
        let mut i: usize = 0;
        while i < self.counters.len()
            invariant
                i <= self.counters@.len(),
                self.dates == dates_after,
                old(self).dates.after_file(*f, dates_after),
                self.counters@.len() == before.len(),
                forall|k: int| 0 <= k < i ==> before[k].after_file(*f, #[trigger] self.counters@[k]),
                forall|k: int| i <= k < before.len() ==> #[trigger] self.counters@[k] == before[k],
                forall|k: int| 0 <= k < before.len() ==> (#[trigger] before[k]).can_add_file(*f),
            decreases before.len() - i,
        {
            let mut c = self.counters.remove(i);
            c.add(f);
            self.counters.insert(i, c);
            i = i + 1;
        }
    }
}

/// The options, separated by `;` and trimmed.
fn trimmed_pieces(options: &Option<String>) -> (r: Vec<String>)
    ensures
        texts(r@) == option_pieces(*options),
{
    match options {
        None => {
            let r: Vec<String> = Vec::new();
            assert(texts(r@) =~= Seq::<Seq<char>>::empty());
            r
        },
        Some(o) => {
            let raw = split_text(o.as_str(), ';');
            let mut r: Vec<String> = Vec::new();
            let mut i: usize = 0;
            while i < raw.len()
                invariant
                    i <= raw@.len(),
                    r@.len() == i,
                    forall|k: int| 0 <= k < i ==> (#[trigger] r@[k])@ == trimmed(raw@[k]@),
                decreases raw@.len() - i,
            {
                r.push(trim_text(raw[i].as_str()));
                i = i + 1;
            }
            assert(texts(r@) =~= split_on(o@, ';').map_values(|p: Seq<char>| trimmed(p))) by {
                assert(texts(raw@) == split_on(o@, ';'));
                assert forall|k: int| 0 <= k < r@.len() implies texts(r@)[k] == trimmed(split_on(o@, ';')[k]) by {
                    assert(texts(raw@)[k] == raw@[k]@);
                }
            }
            r
        },
    }
}

} // verus!
