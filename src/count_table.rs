//! The table that shows a value counter: the combinations and their counts
//! for three variables or more, a cross table for two, and the values by
//! count for one.

use vstd::prelude::*;
use vstd::string::*;
use crate::meta::{nat_text, u64_text};
use crate::text::texts;
use crate::order::{sort_ranked, sorted_texts, text_le};
use crate::order::{lemma_same_items_distinct_keys, lemma_same_items_no_duplicates};
use crate::value_counter::{distinct_texts, ValueCounter};

verus! {

/// A table of texts: a header line and rows.
pub struct CountTable {
    pub header: Vec<String>,
    pub rows: Vec<Vec<String>>,
}

/// `s` after its first colon, if it has one.
pub open spec fn after_colon(s: Seq<char>) -> Option<Seq<char>>
    decreases s.len(),
{
    if s.len() == 0 {
        None
    } else if s[0] == ':' {
        Some(s.drop_first())
    } else {
        after_colon(s.drop_first())
    }
}

/// The value in a key `variable:Type:value`: what follows the second colon,
/// or `fallback` when there are fewer than two.
pub open spec fn value_part(key: Seq<char>, fallback: Seq<char>) -> Seq<char> {
    match after_colon(key) {
        Some(rest) => match after_colon(rest) {
            Some(v) => v,
            None => fallback,
        },
        None => fallback,
    }
}

/// The count of the first entry of `counts` with key `key`, or zero.
pub open spec fn lookup(counts: Seq<(String, usize)>, key: Seq<char>) -> nat
    decreases counts.len(),
{
    if counts.len() == 0 {
        0
    } else if counts[0].0@ == key {
        counts[0].1 as nat
    } else {
        lookup(counts.drop_first(), key)
    }
}

/// Whether `order` holds the entries of `counts` by ascending count.
pub open spec fn by_count(counts: Seq<(String, usize)>, order: Seq<(String, usize)>) -> bool {
    &&& order.to_multiset() == counts.to_multiset()
    &&& forall|i: int, j: int| 0 <= i < j < order.len() ==> (#[trigger] order[i]).1 <= (#[trigger] order[j]).1
}

/// Whether `order` holds the texts of `v` in ascending order.
pub open spec fn in_order(v: Seq<String>, order: Seq<String>) -> bool {
    &&& texts(order).to_multiset() == texts(v).to_multiset()
    &&& forall|i: int, j: int| 0 <= i < j < order.len() ==> text_le(#[trigger] order[i]@, #[trigger] order[j]@)
}

/// Whether no two entries of `order` have the same key text.
pub open spec fn distinct_keys(order: Seq<(String, usize)>) -> bool {
    forall|j: int, k: int| 0 <= j < k < order.len() ==> (#[trigger] order[j]).0@ != (#[trigger] order[k]).0@
}

proof fn lemma_distinct_keys(s: Seq<(String, usize)>, t: Seq<(String, usize)>)
    requires
        s.to_multiset() == t.to_multiset(),
        distinct_keys(s),
    ensures
        distinct_keys(t),
{
    let key = |e: (String, usize)| e.0@;
    assert(s.map_values(key).no_duplicates()) by {
        assert forall|j: int, k: int| 0 <= j < s.len() && 0 <= k < s.len() && j != k implies s.map_values(key)[j] != s.map_values(key)[k] by {
            if j < k {
                assert(s[j].0@ != s[k].0@);
            } else {
                assert(s[k].0@ != s[j].0@);
            }
        }
    }
    lemma_same_items_distinct_keys(s, t, key);
    assert forall|j: int, k: int| 0 <= j < k < t.len() implies (#[trigger] t[j]).0@ != (#[trigger] t[k]).0@ by {
        assert(t.map_values(key)[j] != t.map_values(key)[k]);
    }
}

proof fn lemma_distinct_texts(v: Seq<String>, order: Seq<String>)
    requires
        texts(order).to_multiset() == texts(v).to_multiset(),
        distinct_texts(v),
    ensures
        distinct_texts(order),
{
    assert(texts(v).no_duplicates()) by {
        assert forall|j: int, k: int| 0 <= j < texts(v).len() && 0 <= k < texts(v).len() && j != k implies texts(v)[j] != texts(v)[k] by {
            if j < k {
                assert(v[j]@ != v[k]@);
            } else {
                assert(v[k]@ != v[j]@);
            }
        }
    }
    lemma_same_items_no_duplicates(texts(v), texts(order));
    assert forall|j: int, k: int| 0 <= j < k < order.len() implies (#[trigger] order[j])@ != (#[trigger] order[k])@ by {
        assert(texts(order)[j] != texts(order)[k]);
    }
}

/// Each value of `values` with its count in `counts`.
pub open spec fn with_counts(values: Seq<String>, counts: Seq<(String, usize)>) -> Seq<(String, usize)> {
    Seq::new(values.len(), |i: int| (values[i], lookup(counts, values[i]@) as usize))
}

/// Whether `rows` shows `order` as rows of a key and a count; with
/// `parts`, the key is shortened to its value.
pub open spec fn shows_counts(rows: Seq<Vec<String>>, order: Seq<(String, usize)>, parts: bool) -> bool {
    &&& rows.len() == order.len()
    &&& forall|i: int|
        0 <= i < order.len() ==> texts((#[trigger] rows[i])@) == seq![
            if parts {
                value_part(order[i].0@, order[i].0@)
            } else {
                order[i].0@
            },
            nat_text(order[i].1 as nat),
        ]
}

/// The header of the cross table of `v1` and `v2`.
pub open spec fn cross_header(v1: Seq<char>, v2: Seq<char>, order2: Seq<String>) -> Seq<Seq<char>> {
    seq!["↓"@ + v1 + "  "@ + v2 + " → "@] + Seq::new(order2.len(), |j: int| value_part(order2[j]@, Seq::empty()))
}

/// The row of the cross table for value `val1` of the first variable.
pub open spec fn cross_row(val1: Seq<char>, order2: Seq<String>, counts: Seq<(String, usize)>) -> Seq<Seq<char>> {
    seq![value_part(val1, Seq::empty())] + Seq::new(
        order2.len(),
        |j: int| nat_text(lookup(counts, val1 + ","@ + order2[j]@)),
    )
}

/// The first text of each entry.
fn keys_of_pairs(v: &Vec<(String, usize)>, parts: bool) -> (r: Vec<Vec<String>>)
    ensures
        shows_counts(r@, v@, parts),
{
    let mut rows: Vec<Vec<String>> = Vec::new();
    let mut i: usize = 0;
    while i < v.len()
        invariant
            i <= v@.len(),
            rows@.len() == i,
            forall|k: int|
                0 <= k < i ==> texts((#[trigger] rows@[k])@) == seq![
                    if parts {
                        value_part(v@[k].0@, v@[k].0@)
                    } else {
                        v@[k].0@
                    },
                    nat_text(v@[k].1 as nat),
                ],
        decreases v@.len() - i,
    {
        let key = if parts {
            part_of(&v[i].0, v[i].0.as_str())
        } else {
            v[i].0.clone()
        };
        let row = vec![key, u64_text(v[i].1 as u64)];
        assert(texts(row@) =~= seq![
            if parts {
                value_part(v@[i as int].0@, v@[i as int].0@)
            } else {
                v@[i as int].0@
            },
            nat_text(v@[i as int].1 as nat),
        ]);
        rows.push(row);
        i = i + 1;
    }
    rows
}

/// Index of the first colon of `s` from `from`, if any.
fn colon_from(s: &str, from: usize) -> (r: Option<usize>)
    requires
        from <= s@.len(),
    ensures
        match r {
            Some(k) => from <= k < s@.len() && s@[k as int] == ':' && after_colon(
                s@.subrange(from as int, s@.len() as int),
            ) == Some(s@.subrange(k + 1, s@.len() as int)),
            None => after_colon(s@.subrange(from as int, s@.len() as int)) is None,
        },
{
    let n = s.unicode_len();
    let mut k = from;
    while k < n
        invariant
            n == s@.len(),
            from <= k <= n,
            after_colon(s@.subrange(from as int, n as int)) == after_colon(s@.subrange(k as int, n as int)),
        decreases n - k,
    {
        let ghost tail = s@.subrange(k as int, n as int);
        assert(tail.drop_first() =~= s@.subrange(k + 1, n as int));
        if s.get_char(k) == ':' {
            return Some(k);
        }
        k = k + 1;
    }
    assert(s@.subrange(k as int, n as int) =~= Seq::<char>::empty());
    None
}

/// Computes `value_part` of `key`, with `fallback`.
fn part_of(key: &String, fallback: &str) -> (r: String)
    ensures
        r@ == value_part(key@, fallback@),
{
    let s = key.as_str();
    let n = s.unicode_len();
    assert(s@.subrange(0, n as int) =~= s@);
    match colon_from(s, 0) {
        Some(first) => match colon_from(s, first + 1) {
            Some(second) => String::from_str(s.substring_char(second + 1, n)),
            None => String::from_str(fallback),
        },
        None => String::from_str(fallback),
    }
}

fn copy_pairs(v: &Vec<(String, usize)>) -> (r: Vec<(String, usize)>)
    ensures
        r@ == v@,
{
    let mut r: Vec<(String, usize)> = Vec::new();
    let mut i: usize = 0;
    while i < v.len()
        invariant
            i <= v@.len(),
            r@ =~= v@.subrange(0, i as int),
        decreases v@.len() - i,
    {
        r.push((v[i].0.clone(), v[i].1));
        i = i + 1;
    }
    assert(v@.subrange(0, i as int) =~= v@);
    r
}

/// The entries of `v` by ascending count.
fn sort_by_count(v: Vec<(String, usize)>) -> (r: Vec<(String, usize)>)
    ensures
        r@.to_multiset() == v@.to_multiset(),
        forall|i: int, j: int| 0 <= i < j < r@.len() ==> (#[trigger] r@[i]).1 <= (#[trigger] r@[j]).1,
{
    let ghost rank = |e: (String, usize)| e.1 as int;
    let mut ranked: Vec<(i128, (String, usize))> = Vec::new();
    let mut i: usize = 0;
    while i < v.len()
        invariant
            i <= v@.len(),
            ranked@.map_values(|e: (i128, (String, usize))| e.1) =~= v@.subrange(0, i as int),
            forall|k: int| 0 <= k < ranked@.len() ==> (#[trigger] ranked@[k]).0 == ranked@[k].1.1 as int,
        decreases v@.len() - i,
    {
        let ghost before = ranked@;
        let entry = (v[i].0.clone(), v[i].1);
        ranked.push((v[i].1 as i128, entry));
        assert(ranked@.map_values(|e: (i128, (String, usize))| e.1) =~= before.map_values(
            |e: (i128, (String, usize))| e.1,
        ).push(entry));
        assert(v@.subrange(0, i + 1) =~= v@.subrange(0, i as int).push(v@[i as int]));
        i = i + 1;
    }
    assert(v@.subrange(0, i as int) =~= v@);
    assert(forall|k: int| 0 <= k < ranked@.len() ==> (#[trigger] ranked@[k]).0 == rank(ranked@[k].1));
    let r = sort_ranked(ranked, Ghost(rank));
    r
}

/// Computes `lookup`.
fn lookup_count(counts: &Vec<(String, usize)>, key: &String) -> (r: usize)
    ensures
        r == lookup(counts@, key@),
{
    let mut i: usize = 0;
    assert(counts@.subrange(0, counts@.len() as int) =~= counts@);
    while i < counts.len()
        invariant
            i <= counts@.len(),
            lookup(counts@, key@) == lookup(counts@.subrange(i as int, counts@.len() as int), key@),
        decreases counts@.len() - i,
    {
        let ghost tail = counts@.subrange(i as int, counts@.len() as int);
        assert(tail.drop_first() =~= counts@.subrange(i + 1, counts@.len() as int));
        if counts[i].0 == *key {
            return counts[i].1;
        }
        i = i + 1;
    }
    0
}

impl ValueCounter {
    /// The table of this counter. With three variables or more: each
    /// combination and its count, by ascending count. With two: a cross
    /// table of the values of the first (down) and of the second (across),
    /// each in ascending order. With one: each value and its count, by
    /// descending count. With none: an empty table.
    pub fn table(&self) -> (r: CountTable)
        requires
            self.wf(),
        ensures
            self.variables@.len() > 2 ==> texts(r.header@) == seq!["Names"@, "Count"@] && exists|
                order: Seq<(String, usize)>,
            | #[trigger] by_count(self.counts@, order) && shows_counts(r.rows@, order, false)
                && distinct_keys(order),
            self.variables@.len() == 2 ==> exists|order1: Seq<String>, order2: Seq<String>|
                #[trigger] in_order(self.values@[0]@, order1) && #[trigger] in_order(
                    self.values@[1]@,
                    order2,
                ) && distinct_texts(order1) && distinct_texts(order2) && texts(r.header@) == cross_header(
                    self.variables@[0]@,
                    self.variables@[1]@,
                    order2,
                ) && r.rows@.len() == order1.len() && forall|i: int|
                    0 <= i < order1.len() ==> texts((#[trigger] r.rows@[i])@) == cross_row(
                        order1[i]@,
                        order2,
                        self.counts@,
                    ),
            self.variables@.len() == 1 ==> texts(r.header@) == seq![
                self.variables@[0]@,
                "Count"@,
            ] && exists|order: Seq<(String, usize)>|
                #[trigger] by_count(with_counts(self.values@[0]@, self.counts@), order)
                    && distinct_keys(order) && shows_counts(r.rows@, order.reverse(), true),
            self.variables@.len() == 0 ==> r.header@.len() == 0 && r.rows@.len() == 0,
    {
        if self.variables.len() > 2 {
            let order = sort_by_count(copy_pairs(&self.counts));
            assert(by_count(self.counts@, order@));
            proof {
                lemma_distinct_keys(self.counts@, order@);
            }
            let rows = keys_of_pairs(&order, false);
            let header = vec![String::from_str("Names"), String::from_str("Count")];
            assert(texts(header@) =~= seq!["Names"@, "Count"@]);
            CountTable { header, rows }
        } else if self.variables.len() == 2 {
            let order1 = sorted_texts(&self.values[0]);
            let order2 = sorted_texts(&self.values[1]);
            assert(in_order(self.values@[0]@, order1@));
            assert(in_order(self.values@[1]@, order2@));
            proof {
                lemma_distinct_texts(self.values@[0]@, order1@);
                lemma_distinct_texts(self.values@[1]@, order2@);
            }
            let first = String::from_str("↓").concat(self.variables[0].as_str()).concat("  ").concat(
                self.variables[1].as_str(),
            ).concat(" → ");
            let mut header = vec![first];
            assert(texts(header@) =~= cross_header(
                self.variables@[0]@,
                self.variables@[1]@,
                order2@,
            ).subrange(0, 1));
            let mut j: usize = 0;
            while j < order2.len()
                invariant
                    self.variables@.len() == 2,
                    j <= order2@.len(),
                    header@.len() == j + 1,
                    texts(header@) == cross_header(
                        self.variables@[0]@,
                        self.variables@[1]@,
                        order2@,
                    ).subrange(0, j + 1),
                decreases order2@.len() - j,
            {
                let part = part_of(&order2[j], "");
                proof {
                    reveal_strlit("");
                    assert(""@ =~= Seq::<char>::empty());
                }
                let ghost before = header@;
                header.push(part);
                assert(texts(header@) =~= texts(before).push(part@));
                j = j + 1;
            }
            assert(cross_header(self.variables@[0]@, self.variables@[1]@, order2@).subrange(
                0,
                j + 1,
            ) =~= cross_header(self.variables@[0]@, self.variables@[1]@, order2@));
            let mut rows: Vec<Vec<String>> = Vec::new();
            let mut i: usize = 0;
            while i < order1.len()
                invariant
                    i <= order1@.len(),
                    rows@.len() == i,
                    forall|k: int|
                        0 <= k < i ==> texts((#[trigger] rows@[k])@) == cross_row(
                            order1@[k]@,
                            order2@,
                            self.counts@,
                        ),
                decreases order1@.len() - i,
            {
                let mut row = vec![part_of(&order1[i], "")];
                proof {
                    reveal_strlit("");
                    assert(""@ =~= Seq::<char>::empty());
                }
                assert(texts(row@) =~= cross_row(order1@[i as int]@, order2@, self.counts@).subrange(0, 1));
                let mut j: usize = 0;
                while j < order2.len()
                    invariant
                        i < order1@.len(),
                        j <= order2@.len(),
                        row@.len() == j + 1,
                        texts(row@) == cross_row(order1@[i as int]@, order2@, self.counts@).subrange(
                            0,
                            j + 1,
                        ),
                    decreases order2@.len() - j,
                {
                    let key = order1[i].clone().concat(",").concat(order2[j].as_str());
                    let count = lookup_count(&self.counts, &key);
                    let ghost before = row@;
                    row.push(u64_text(count as u64));
                    assert(texts(row@) =~= texts(before).push(nat_text(count as nat)));
                    j = j + 1;
                }
                assert(cross_row(order1@[i as int]@, order2@, self.counts@).subrange(0, j + 1)
                    =~= cross_row(order1@[i as int]@, order2@, self.counts@));
                rows.push(row);
                i = i + 1;
            }
            CountTable { header, rows }
        } else if self.variables.len() == 1 {
            let values = &self.values[0];
            let mut pairs: Vec<(String, usize)> = Vec::new();
            let mut i: usize = 0;
            while i < values.len()
                invariant
                    i <= values@.len(),
                    pairs@ =~= with_counts(values@, self.counts@).subrange(0, i as int),
                decreases values@.len() - i,
            {
                let count = lookup_count(&self.counts, &values[i]);
                pairs.push((values[i].clone(), count));
                i = i + 1;
            }
            assert(with_counts(values@, self.counts@).subrange(0, i as int) =~= with_counts(
                values@,
                self.counts@,
            ));
            let order = sort_by_count(pairs);
            assert(by_count(with_counts(values@, self.counts@), order@));
            proof {
                let wc = with_counts(values@, self.counts@);
                assert(distinct_keys(wc)) by {
                    assert(distinct_texts(values@));
                    assert forall|j: int, k: int| 0 <= j < k < wc.len() implies (#[trigger] wc[j]).0@ != (#[trigger] wc[k]).0@ by {
                        assert(values@[j]@ != values@[k]@);
                    }
                }
                lemma_distinct_keys(wc, order@);
            }
            let mut descending: Vec<(String, usize)> = Vec::new();
            let mut k: usize = order.len();
            while k > 0
                invariant
                    k <= order@.len(),
                    descending@ =~= order@.reverse().subrange(0, order@.len() - k),
                decreases k,
            {
                k = k - 1;
                descending.push((order[k].0.clone(), order[k].1));
            }
            assert(order@.reverse().subrange(0, order@.len() as int) =~= order@.reverse());
            let rows = keys_of_pairs(&descending, true);
            let header = vec![self.variables[0].clone(), String::from_str("Count")];
            assert(texts(header@) =~= seq![self.variables@[0]@, "Count"@]);
            CountTable { header, rows }
        } else {
            CountTable { header: Vec::new(), rows: Vec::new() }
        }
    }
}

} // verus!
