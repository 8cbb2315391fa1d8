//! Counts of indexed files per combination of metadata values.

use vstd::prelude::*;
use vstd::string::*;
use crate::mapping::holds_text;
use crate::order::{sorted_texts, text_le};
use crate::text::texts;
use crate::meta::{IndexFile, MetaValue, MetaVariable};

verus! {

/// The value of the first variable of `meta` named `name`, if any.
pub open spec fn first_named(meta: Seq<MetaVariable>, name: Seq<char>) -> Option<MetaValue>
    decreases meta.len(),
{
    if meta.len() == 0 {
        None
    } else if meta[0].name@ == name {
        Some(meta[0].value)
    } else {
        first_named(meta.drop_first(), name)
    }
}

/// The key under which the value of `variable` in `meta` is counted:
/// `variable:Type:text`, or the marker of a missing value.
pub open spec fn value_key(variable: Seq<char>, meta: Seq<MetaVariable>) -> Seq<char> {
    match first_named(meta, variable) {
        Some(v) => variable + ":"@ + v.kind_name() + ":"@ + v.text(),
        None => "{}:MISSING"@,
    }
}

/// The texts of `keys`, separated by commas.
pub open spec fn join_commas(keys: Seq<Seq<char>>) -> Seq<char>
    decreases keys.len(),
{
    if keys.len() == 0 {
        Seq::empty()
    } else if keys.len() == 1 {
        keys[0]
    } else {
        join_commas(keys.drop_last()) + ","@ + keys.last()
    }
}

/// The keys of the values of `variables` in `meta`.
pub open spec fn value_keys(variables: Seq<String>, meta: Seq<MetaVariable>) -> Seq<Seq<char>> {
    Seq::new(variables.len(), |i: int| value_key(variables[i]@, meta))
}

/// The total count recorded for `key` in `counts`.
pub open spec fn count_for(counts: Seq<(String, usize)>, key: Seq<char>) -> nat
    decreases counts.len(),
{
    if counts.len() == 0 {
        0
    } else {
        count_for(counts.drop_last(), key) + if counts.last().0@ == key {
            counts.last().1 as nat
        } else {
            0nat
        }
    }
}

proof fn lemma_count_for_push(counts: Seq<(String, usize)>, entry: (String, usize), key: Seq<char>)
    ensures
        count_for(counts.push(entry), key) == count_for(counts, key) + if entry.0@ == key {
            entry.1 as nat
        } else {
            0nat
        },
{
    assert(counts.push(entry).drop_last() =~= counts);
}

proof fn lemma_count_for_update(counts: Seq<(String, usize)>, i: int, c: usize, key: Seq<char>)
    requires
        0 <= i < counts.len(),
        counts[i].1 <= c,
    ensures
        count_for(counts.update(i, (counts[i].0, c)), key) == count_for(counts, key) + if counts[i].0@
            == key {
            c - counts[i].1
        } else {
            0
        },
    decreases counts.len(),
{
    let u = counts.update(i, (counts[i].0, c));
    if i < counts.len() - 1 {
        assert(u.drop_last() =~= counts.drop_last().update(i, (counts[i].0, c)));
        lemma_count_for_update(counts.drop_last(), i, c, key);
    } else {
        assert(u.drop_last() =~= counts.drop_last());
    }
}

/// Whether no two of `v` have the same text.
pub open spec fn distinct_texts(v: Seq<String>) -> bool {
    forall|j: int, k: int| 0 <= j < k < v.len() ==> (#[trigger] v[j])@ != (#[trigger] v[k])@
}

/// Counts files per combination of the values of some variables.
pub struct ValueCounter {
    /// The variables, in ascending order.
    pub variables: Vec<String>,
    /// For each combination of value keys met so far, joined by commas, the
    /// number of files that had it; each combination appears once.
    pub counts: Vec<(String, usize)>,
    /// For each variable, the value keys met so far, each once.
    pub values: Vec<Vec<String>>,
    /// Number of files added.
    pub added: usize,
}

impl ValueCounter {
    pub open spec fn wf(&self) -> bool {
        &&& self.values@.len() == self.variables@.len()
        &&& forall|i: int| 0 <= i < self.counts@.len() ==> (#[trigger] self.counts@[i]).1 <= self.added
        &&& forall|i: int, j: int|
            0 <= i < j < self.counts@.len() ==> (#[trigger] self.counts@[i]).0@
                != (#[trigger] self.counts@[j]).0@
        &&& forall|i: int| 0 <= i < self.values@.len() ==> distinct_texts(#[trigger] self.values@[i]@)
    }

    /// `next` is this counter after `f` was recorded: the key of each
    /// variable's value joins that variable's keys, and the count of the
    /// file's combination of keys goes up by one.
    pub open spec fn after_file(&self, f: IndexFile, next: ValueCounter) -> bool {
        &&& next.wf()
        &&& next.added == self.added + 1
        &&& next.variables == self.variables
        &&& forall|key: Seq<char>|
            #[trigger] count_for(next.counts@, key) == count_for(self.counts@, key) + if key
                == join_commas(value_keys(self.variables@, f.meta@)) {
                1int
            } else {
                0int
            }
        &&& forall|i: int, t: Seq<char>|
            0 <= i < self.variables@.len() ==> (#[trigger] holds_text(next.values@[i]@, t) <==> holds_text(
                self.values@[i]@,
                t,
            ) || t == value_key(self.variables@[i]@, f.meta@))
    }

    /// Whether `f` can be recorded: its values are well formed and the
    /// counter has room.
    pub open spec fn can_add_file(&self, f: IndexFile) -> bool {
        &&& self.wf()
        &&& self.added < usize::MAX
        &&& forall|i: int| 0 <= i < f.meta@.len() ==> (#[trigger] f.meta@[i]).value.wf()
    }

    /// A counter for `variables`, which it keeps in ascending order.
    pub fn new(variables: Vec<String>) -> (r: ValueCounter)
        ensures
            r.wf(),
            texts(r.variables@).to_multiset() == texts(variables@).to_multiset(),
            forall|i: int, j: int|
                0 <= i < j < r.variables@.len() ==> text_le(
                    #[trigger] r.variables@[i]@,
                    #[trigger] r.variables@[j]@,
                ),
            r.counts@.len() == 0,
            forall|i: int| 0 <= i < r.values@.len() ==> (#[trigger] r.values@[i])@.len() == 0,
            r.added == 0,
    {
        let sorted = sorted_texts(&variables);
        let mut values: Vec<Vec<String>> = Vec::new();
        let mut i: usize = 0;
        while i < sorted.len()
            invariant
                i <= sorted@.len(),
                values@.len() == i,
                forall|j: int| 0 <= j < i ==> (#[trigger] values@[j])@.len() == 0,
            decreases sorted@.len() - i,
        {
            values.push(Vec::new());
            i = i + 1;
        }
        ValueCounter { variables: sorted, counts: Vec::new(), values, added: 0 }
    }

    /// Records one file: the key of each variable's value joins that
    /// variable's keys, and the count of the file's combination of keys goes
    /// up by one.
    pub fn add(&mut self, f: &IndexFile)
        requires
            old(self).can_add_file(*f),
        ensures
            old(self).after_file(*f, *final(self)),
    {
        let ghost old_values = self.values@;
        let mut joined = String::new();
        let mut i: usize = 0;
        while i < self.variables.len()
            invariant
                self.wf(),
                self.variables == old(self).variables,
                self.counts == old(self).counts,
                self.added == old(self).added,
                i <= self.variables@.len(),
                self.values@.len() == old_values.len(),
                old_values.len() == self.variables@.len(),
                forall|j: int| i <= j < old_values.len() ==> #[trigger] self.values@[j] == old_values[j],
                forall|j: int, t: Seq<char>|
                    0 <= j < i ==> (#[trigger] holds_text(self.values@[j]@, t) <==> holds_text(
                        old_values[j]@,
                        t,
                    ) || t == value_key(self.variables@[j]@, f.meta@)),
                joined@ == join_commas(value_keys(self.variables@, f.meta@).subrange(0, i as int)),
                forall|j: int| 0 <= j < f.meta@.len() ==> (#[trigger] f.meta@[j]).value.wf(),
            decreases self.variables@.len() - i,
        {
            let key = key_of(&self.variables[i], &f.meta);
            let mut set = self.values[i].clone();
            assert(set@ == old_values[i as int]@);
            insert_text(&mut set, &key);
            self.values.set(i, set);
            proof {
                let ks = value_keys(self.variables@, f.meta@);
                assert(ks.subrange(0, i + 1).drop_last() =~= ks.subrange(0, i as int));
            }
            if i == 0 {
                joined = key;
                proof {
                    reveal_strlit(",");
                }
            } else {
                joined = joined.concat(",").concat(key.as_str());
            }
            i = i + 1;
        }
        assert(value_keys(self.variables@, f.meta@).subrange(0, i as int) =~= value_keys(
            self.variables@,
            f.meta@,
        ));
        self.count_key(joined);
    }

    fn count_key(&mut self, key: String)
        requires
            old(self).wf(),
            old(self).added < usize::MAX,
        ensures
            final(self).wf(),
            final(self).added == old(self).added + 1,
            final(self).variables == old(self).variables,
            final(self).values == old(self).values,
            forall|k: Seq<char>|
                #[trigger] count_for(final(self).counts@, k) == count_for(old(self).counts@, k) + if k
                    == key@ {
                    1int
                } else {
                    0int
                },
    {
        let mut i: usize = 0;
        while i < self.counts.len()
            invariant
                self.wf(),
                self.added < usize::MAX,
                self.added == old(self).added,
                self.counts == old(self).counts,
                self.variables == old(self).variables,
                self.values == old(self).values,
                i <= self.counts@.len(),
                forall|j: int| 0 <= j < i ==> (#[trigger] self.counts@[j]).0@ != key@,
            decreases self.counts@.len() - i,
        {
            if self.counts[i].0 == key {
                let c = self.counts[i].1;
                let name = self.counts[i].0.clone();
                proof {
                    assert forall|k: Seq<char>|
                        #[trigger] count_for(self.counts@.update(i as int, (name, (c + 1) as usize)), k)
                            == count_for(self.counts@, k) + if k == key@ {
                            1int
                        } else {
                            0int
                        } by {
                        lemma_count_for_update(self.counts@, i as int, (c + 1) as usize, k);
                    }
                }
                self.counts.set(i, (name, c + 1));
                self.added = self.added + 1;
                return;
            }
            i = i + 1;
        }
        proof {
            assert forall|k: Seq<char>|
                #[trigger] count_for(self.counts@.push((key, 1usize)), k) == count_for(
                    self.counts@,
                    k,
                ) + if k == key@ {
                    1int
                } else {
                    0int
                } by {
                lemma_count_for_push(self.counts@, (key, 1usize), k);
            }
        }
        self.counts.push((key, 1));
        self.added = self.added + 1;
    }
}

/// Computes `value_key` of `variable` in `meta`.
fn key_of(variable: &String, meta: &Vec<MetaVariable>) -> (r: String)
    requires
        forall|j: int| 0 <= j < meta@.len() ==> (#[trigger] meta@[j]).value.wf(),
    ensures
        r@ == value_key(variable@, meta@),
{
    let mut i: usize = 0;
    assert(meta@.subrange(0, meta@.len() as int) =~= meta@);
    while i < meta.len()
        invariant
            i <= meta@.len(),
            forall|j: int| 0 <= j < meta@.len() ==> (#[trigger] meta@[j]).value.wf(),
            first_named(meta@, variable@) == first_named(meta@.subrange(i as int, meta@.len() as int), variable@),
        decreases meta@.len() - i,
    {
        assert(meta@.subrange(i as int, meta@.len() as int).drop_first() =~= meta@.subrange(i + 1, meta@.len() as int));
        if meta[i].name == *variable {
            let v = &meta[i].value;
            assert(v.wf());
            let text = v.to_text();
            return variable.clone().concat(":").concat(v.string_type()).concat(":").concat(text.as_str());
        }
        i = i + 1;
    }
    String::from_str("{}:MISSING")
}

/// Adds `t` to the texts of `set` unless it is there already.
fn insert_text(set: &mut Vec<String>, t: &String)
    requires
        distinct_texts(old(set)@),
    ensures
        forall|s: Seq<char>| holds_text(final(set)@, s) <==> holds_text(old(set)@, s) || s == t@,
        distinct_texts(final(set)@),
{
    let mut i: usize = 0;
    while i < set.len()
        invariant
            i <= set@.len(),
            set@ == old(set)@,
            distinct_texts(set@),
            forall|j: int| 0 <= j < i ==> (#[trigger] set@[j])@ != t@,
        decreases set@.len() - i,
    {
        if set[i] == *t {
            assert(set@[i as int]@ == t@);
            return;
        }
        i = i + 1;
    }
    let ghost before = set@;
    set.push(t.clone());
    assert(distinct_texts(set@)) by {
        assert forall|j: int, k: int| 0 <= j < k < set@.len() implies (#[trigger] set@[j])@ != (
        #[trigger] set@[k])@ by {
            assert(set@[j] == before[j]);
            if k < before.len() {
                assert(set@[k] == before[k]);
            }
        }
    }
    assert forall|s: Seq<char>| holds_text(set@, s) <==> holds_text(before, s) || s == t@ by {
        if holds_text(set@, s) {
            let j = choose|j: int| 0 <= j < set@.len() && (#[trigger] set@[j])@ == s;
            if j < before.len() {
                assert(before[j] == set@[j]);
            }
        }
        if holds_text(before, s) {
            let j = choose|j: int| 0 <= j < before.len() && (#[trigger] before[j])@ == s;
            assert(set@[j] == before[j]);
        }
        if s == t@ {
            assert(set@[before.len() as int]@ == s);
        }
    }
}

} // verus!
