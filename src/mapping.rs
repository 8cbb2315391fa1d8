//! Rewriting of metadata values: a mapping replaces the value of one
//! variable by a fixed text whenever that value is one of a list.

use vstd::prelude::*;
use vstd::string::*;
use crate::meta::{MetaValue, MetaVariable};

verus! {

/// Replaces the value of `variable` by `assign_value` when its text is one of
/// `match_values`.
#[derive(Debug, Clone)]
pub struct Mapping {
    pub variable: String,
    pub match_values: Vec<String>,
    pub assign_value: String,
}

/// Whether `s` is the text of one of `values`.
pub open spec fn holds_text(values: Seq<String>, s: Seq<char>) -> bool {
    exists|i: int| 0 <= i < values.len() && (#[trigger] values[i])@ == s
}

impl Mapping {
    /// Whether the mapping rewrites `value` when it belongs to `variable`.
    pub open spec fn matches(&self, variable: Seq<char>, value: Seq<char>) -> bool {
        variable == self.variable@ && holds_text(self.match_values@, value)
    }

    /// The replacement text when the mapping applies to `variable` and
    /// `value`, and `None` otherwise.
    pub fn apply(&self, variable: &str, value: &str) -> (r: Option<String>)
        ensures
            self.matches(variable@, value@) ==> r == Some(self.assign_value),
            !self.matches(variable@, value@) ==> r is None,
    {
        let variable = String::from_str(variable);
        let value = String::from_str(value);
        if variable == self.variable && contains_text(&self.match_values, &value) {
            Some(self.assign_value.clone())
        } else {
            None
        }
    }
}

/// Whether `s` is the text of one of `values`.
pub fn contains_text(values: &Vec<String>, s: &String) -> (r: bool)
    ensures
        r == holds_text(values@, s@),
{
    let mut i: usize = 0;
    while i < values.len()
        invariant
            i <= values@.len(),
            forall|j: int| 0 <= j < i ==> (#[trigger] values@[j])@ != s@,
        decreases values@.len() - i,
    {
        if values[i] == *s {
            assert(values@[i as int]@ == s@);
            return true;
        }
        i = i + 1;
    }
    false
}

/// The value of a variable named `name` with value `value` after the
/// mappings `ms[..k]`, applied in order, have each rewritten it to a string
/// when they match its text at that point.
pub open spec fn mapped_value(ms: Seq<Mapping>, name: Seq<char>, value: MetaValue, k: int) -> MetaValue
    decreases k,
{
    if k <= 0 {
        value
    } else {
        let before = mapped_value(ms, name, value, k - 1);
        if ms[k - 1].matches(name, before.text()) {
            MetaValue::String(ms[k - 1].assign_value)
        } else {
            before
        }
    }
}

/// Applies every mapping, in order, to every variable.
pub fn apply_mappings(mappings: &Vec<Mapping>, variables: &mut Vec<MetaVariable>)
    requires
        forall|i: int| 0 <= i < old(variables)@.len() ==> (#[trigger] old(variables)@[i]).value.wf(),
    ensures
        final(variables)@.len() == old(variables)@.len(),
        forall|i: int|
            0 <= i < old(variables)@.len() ==> (#[trigger] final(variables)@[i]).name
                == old(variables)@[i].name && final(variables)@[i].value == mapped_value(
                mappings@,
                old(variables)@[i].name@,
                old(variables)@[i].value,
                mappings@.len() as int,
            ),
{
    let ghost initial = variables@;
    let mut i: usize = 0;
    while i < variables.len()
        invariant
            i <= variables@.len(),
            variables@.len() == initial.len(),
            forall|j: int| 0 <= j < initial.len() ==> (#[trigger] initial[j]).value.wf(),
            forall|j: int| i <= j < initial.len() ==> #[trigger] variables@[j] == initial[j],
            forall|j: int|
                0 <= j < i ==> (#[trigger] variables@[j]).name == initial[j].name
                    && variables@[j].value == mapped_value(
                    mappings@,
                    initial[j].name@,
                    initial[j].value,
                    mappings@.len() as int,
                ),
        decreases initial.len() - i,
    {
        let mut value = variables[i].value.clone_value();
        let mut k: usize = 0;
        while k < mappings.len()
            invariant
                k <= mappings@.len(),
                i < initial.len(),
                variables@.len() == initial.len(),
                variables@[i as int] == initial[i as int],
                initial[i as int].value.wf(),
                value == mapped_value(mappings@, initial[i as int].name@, initial[i as int].value, k as int),
                value.wf(),
            decreases mappings@.len() - k,
        {
            let ghost before = value;
            let text = value.to_text();
            if let Some(result) = mappings[k].apply(variables[i].name.as_str(), text.as_str()) {
                value = MetaValue::String(result);
            }
            assert(value == mapped_value(
                mappings@,
                initial[i as int].name@,
                initial[i as int].value,
                k + 1,
            )) by {
                assert(mapped_value(mappings@, initial[i as int].name@, initial[i as int].value, k + 1)
                    == if mappings@[k as int].matches(initial[i as int].name@, before.text()) {
                    MetaValue::String(mappings@[k as int].assign_value)
                } else {
                    before
                });
            }
            k = k + 1;
        }
        let name = variables[i].name.clone();
        assert(name == initial[i as int].name);
        variables.set(i, MetaVariable { name, value });
        i = i + 1;
    }
}

} // verus!
