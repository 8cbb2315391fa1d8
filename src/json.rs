//! JSON documents of file metadata, and how two of them are merged.

use vstd::prelude::*;
use vstd::string::*;

verus! {

broadcast use vstd::std_specs::vec::group_vec_axioms, vstd::seq::group_seq_axioms;

/// A JSON value; a number is held as its JSON text.
#[derive(Debug, PartialEq)]
pub enum Json {
    Null,
    Bool(bool),
    Number(String),
    String(String),
    Array(Vec<Json>),
    Object(Vec<(String, Json)>),
}

/// The mathematical form of a JSON value.
pub enum JsonView {
    Null,
    Bool(bool),
    Number(Seq<char>),
    String(Seq<char>),
    Array(Seq<JsonView>),
    Object(Seq<(Seq<char>, JsonView)>),
}

impl Json {
    pub open spec fn view(self) -> JsonView
        decreases self,
    {
        match self {
            Json::Null => JsonView::Null,
            Json::Bool(b) => JsonView::Bool(b),
            Json::Number(n) => JsonView::Number(n@),
            Json::String(s) => JsonView::String(s@),
            Json::Array(items) => JsonView::Array(
                Seq::new(
                    items@.len(),
                    |i: int|
                        if 0 <= i < items@.len() {
                            items@[i].view()
                        } else {
                            JsonView::Null
                        },
                ),
            ),
            Json::Object(entries) => JsonView::Object(
                Seq::new(
                    entries@.len(),
                    |i: int|
                        if 0 <= i < entries@.len() {
                            (entries@[i].0@, entries@[i].1.view())
                        } else {
                            (Seq::empty(), JsonView::Null)
                        },
                ),
            ),
        }
    }
}

/// The view of object entries.
pub open spec fn entries_view(s: Seq<(String, Json)>) -> Seq<(Seq<char>, JsonView)> {
    Seq::new(s.len(), |i: int| (s[i].0@, s[i].1@))
}

proof fn lemma_object_view(v: Vec<(String, Json)>)
    ensures
        Json::Object(v)@ == JsonView::Object(entries_view(v@)),
{
    assert(entries_view(v@) =~= match Json::Object(v)@ {
        JsonView::Object(e) => e,
        _ => Seq::empty(),
    });
}

proof fn lemma_array_view(v: Vec<Json>)
    ensures
        Json::Array(v)@ == JsonView::Array(Seq::new(v@.len(), |i: int| v@[i]@)),
{
    assert(Seq::new(v@.len(), |i: int| v@[i]@) =~= match Json::Array(v)@ {
        JsonView::Array(e) => e,
        _ => Seq::empty(),
    });
}

/// Index of the first entry of `e` with key `k`, if any.
pub open spec fn key_index(e: Seq<(Seq<char>, JsonView)>, k: Seq<char>) -> Option<int>
    decreases e.len(),
{
    if e.len() == 0 {
        None
    } else {
        match key_index(e.drop_last(), k) {
            Some(i) => Some(i),
            None => if e.last().0 == k {
                Some(e.len() - 1)
            } else {
                None
            },
        }
    }
}

/// `b` merged into `a`: objects entry by entry, arrays by appending the
/// items of `b`, and anything else by taking `b`.
pub open spec fn merged(a: JsonView, b: JsonView) -> JsonView
    decreases b, 0nat,
{
    match b {
        JsonView::Object(be) => match a {
            JsonView::Object(ae) => JsonView::Object(merge_entries(ae, be, be.len())),
            _ => b,
        },
        JsonView::Array(bi) => match a {
            JsonView::Array(ai) => JsonView::Array(ai + bi),
            _ => b,
        },
        _ => b,
    }
}

/// The entries `ae` after the first `n` entries of `be` were merged in, in
/// order: an entry whose key is there already is merged into the first
/// entry with that key; another is added at the end.
pub open spec fn merge_entries(ae: Seq<(Seq<char>, JsonView)>, be: Seq<(Seq<char>, JsonView)>, n: nat) -> Seq<
    (Seq<char>, JsonView),
>
    decreases be, n,
{
    if n == 0 || n > be.len() {
        ae
    } else {
        let s = merge_entries(ae, be, (n - 1) as nat);
        let (k, v) = be[n - 1];
        match key_index(s, k) {
            Some(i) => s.update(i, (k, merged(s[i].1, v))),
            None => s.push((k, v)),
        }
    }
}

/// Index of the first entry of `e` with key `k`.
fn find_key(e: &Vec<(String, Json)>, k: &String) -> (r: Option<usize>)
    ensures
        match key_index(entries_view(e@), k@) {
            Some(i) => r == Some(i as usize),
            None => r is None,
        },
{
    let mut i: usize = 0;
    while i < e.len()
        invariant
            i <= e@.len(),
            key_index(entries_view(e@).subrange(0, i as int), k@) is None,
        decreases e@.len() - i,
    {
        let ghost ev = entries_view(e@);
        assert(ev.subrange(0, i + 1).drop_last() =~= ev.subrange(0, i as int));
        if e[i].0 == *k {
            proof {
                lemma_key_index_prefix(ev, k@, i + 1);
            }
            return Some(i);
        }
        i = i + 1;
    }
    assert(entries_view(e@).subrange(0, i as int) =~= entries_view(e@));
    None
}

proof fn lemma_key_index_prefix(e: Seq<(Seq<char>, JsonView)>, k: Seq<char>, n: int)
    requires
        0 < n <= e.len(),
        key_index(e.subrange(0, n), k) is Some,
    ensures
        key_index(e, k) == key_index(e.subrange(0, n), k),
    decreases e.len(),
{
    if n < e.len() {
        assert(e.drop_last().subrange(0, n) =~= e.subrange(0, n));
        lemma_key_index_prefix(e.drop_last(), k, n);
    } else {
        assert(e.subrange(0, n) =~= e);
    }
}

proof fn lemma_key_index_bounds(e: Seq<(Seq<char>, JsonView)>, k: Seq<char>)
    ensures
        key_index(e, k) matches Some(i) ==> 0 <= i < e.len() && e[i].0 == k,
    decreases e.len(),
{
    if e.len() > 0 {
        lemma_key_index_bounds(e.drop_last(), k);
    }
}

/// Merges `b` into `a`.
pub fn merge_values(a: Json, b: Json) -> (r: Json)
    ensures
        r@ == merged(a@, b@),
    decreases b,
{
    let ghost b0 = b;
    let ghost a0 = a;
    match b {
        Json::Object(be) => match a {
            Json::Object(ae) => {
                let ghost bev = entries_view(be@);
                let ghost aev = entries_view(ae@);
                proof {
                    lemma_object_view(be);
                    lemma_object_view(ae);
                }
                let ghost be0 = be@;
                let total = be.len();
                let mut rest = be;
                let mut s = ae;
                let mut n: usize = 0;
                while rest.len() > 0
                    invariant
                        b0 == b,
                        b0 == Json::Object(object_entries(b0)),
                        be0 == object_entries(b0)@,
                        bev == entries_view(be0),
                        n + rest@.len() == be0.len(),
                        total == be0.len(),
                        rest@ == be0.subrange(n as int, be0.len() as int),
                        entries_view(s@) == merge_entries(aev, bev, n as nat),
                    decreases rest@.len(),
                {
                    let (k, v) = rest.remove(0);
                    assert(be0[n as int] == (k, v));
                    proof {
                        assert(decreases_to!(b0 => object_entries(b0)));
                        assert(decreases_to!(object_entries(b0) => object_entries(b0)@));
                        assert(decreases_to!(be0 => be0[n as int]));
                        assert(decreases_to!(be0[n as int] => v));
                        assert(decreases_to!(b => v));
                    }
                    let ghost sv = entries_view(s@);
                    let count = s.len();
                    assert(sv.len() == count);
                    assert(bev[n as int] == (k@, v@));
                    assert(merge_entries(aev, bev, (n + 1) as nat) == match key_index(sv, k@) {
                        Some(i) => sv.update(i, (k@, merged(sv[i].1, v@))),
                        None => sv.push((k@, v@)),
                    });
                    match find_key(&s, &k) {
                        Some(i) => {
                            proof {
                                lemma_key_index_bounds(sv, k@);
                            }
                            let ghost old_s = s@;
                            assert(sv[i as int] == (old_s[i as int].0@, old_s[i as int].1@));
                            let (k0, v0) = s.remove(i);
                            let nv = merge_values(v0, v);
                            s.insert(i, (k0, nv));
                            assert(key_index(sv, k@) == Some(i as int));
                            assert(s@ =~= old_s.update(i as int, (k0, nv)));
                            assert(k0@ == k@);
                            assert(v0@ == sv[i as int].1);
                            assert(entries_view(s@) =~= sv.update(i as int, (k@, merged(sv[i as int].1, v@))));
                        },
                        None => {
                            s.push((k, v));
                            assert(entries_view(s@) =~= sv.push((k@, v@)));
                        },
                    }
                    assert(rest@ =~= be0.subrange(n + 1, be0.len() as int));
                    n = n + 1;
                }
                proof {
                    lemma_object_view(s);
                    assert(n == bev.len());
                }
                Json::Object(s)
            },
            other => {
                proof {
                    lemma_object_view(be);
                    assert(!(a0@ is Object));
                }
                Json::Object(be)
            },
        },
        Json::Array(mut bi) => match a {
            Json::Array(mut ai) => {
                proof {
                    lemma_array_view(ai);
                    lemma_array_view(bi);
                }
                let ghost av = Seq::new(ai@.len(), |i: int| ai@[i]@);
                let ghost bv = Seq::new(bi@.len(), |i: int| bi@[i]@);
                let ghost old_ai = ai@;
                let ghost old_bi = bi@;
                ai.append(&mut bi);
                assert(ai@ == old_ai + old_bi);
                assert(Seq::new(ai@.len(), |i: int| ai@[i]@) =~= av + bv);
                proof {
                    lemma_array_view(ai);
                }
                Json::Array(ai)
            },
            other => {
                assert(!(a0@ is Array));
                Json::Array(bi)
            },
        },
        other => other,
    }
}

/// The entries of an object value.
pub open spec fn object_entries(b: Json) -> Vec<(String, Json)> {
    match b {
        Json::Object(e) => e,
        _ => arbitrary(),
    }
}

/// Merges `b` into `*a`.
pub fn merge(a: &mut Json, b: Json)
    ensures
        final(a)@ == merged(old(a)@, b@),
{
    let mut current = Json::Null;
    std::mem::swap(a, &mut current);
    *a = merge_values(current, b);
}

/// `j` with each array of exactly one item replaced by that item, from the
/// outside in.
pub open spec fn unwrap_singletons(j: JsonView) -> JsonView
    decreases j,
{
    match j {
        JsonView::Array(items) => if items.len() == 1 {
            unwrap_singletons(items[0])
        } else {
            j
        },
        _ => j,
    }
}

/// `e` with the value of key `k` set to `v`: in the first entry with that
/// key, or in a new entry at the end.
pub open spec fn set_entry(e: Seq<(Seq<char>, JsonView)>, k: Seq<char>, v: JsonView) -> Seq<
    (Seq<char>, JsonView),
> {
    match key_index(e, k) {
        Some(i) => e.update(i, (k, v)),
        None => e.push((k, v)),
    }
}

/// The metadata document of a file with digest `sha256`: `j` without
/// single-item arrays around it, with the digest under `sha256` if it is an
/// object, and else wrapped as `data` in an object beside the digest.
pub open spec fn stamped(j: JsonView, sha256: Seq<char>) -> JsonView {
    let u = unwrap_singletons(j);
    match u {
        JsonView::Object(e) => JsonView::Object(set_entry(e, "sha256"@, JsonView::String(sha256))),
        _ => JsonView::Object(
            seq![("sha256"@, JsonView::String(sha256)), ("data"@, u)],
        ),
    }
}

/// Computes `stamped`.
pub fn stamp(j: Json, sha256: String) -> (r: Json)
    ensures
        r@ == stamped(j@, sha256@),
{
    let mut cur = j;
    loop
        invariant
            unwrap_singletons(cur@) == unwrap_singletons(j@),
        ensures
            unwrap_singletons(cur@) == unwrap_singletons(j@),
            unwrap_singletons(cur@) == cur@,
        decreases cur,
    {
        match cur {
            Json::Array(mut items) => {
                proof {
                    lemma_array_view(items);
                }
                if items.len() == 1 {
                    let ghost whole = Json::Array(items);
                    let ghost old_items = items;
                    let first = items.remove(0);
                    proof {
                        assert(decreases_to!(whole => old_items));
                        assert(decreases_to!(old_items => old_items@));
                        assert(decreases_to!(old_items@ => old_items@[0]));
                        assert(first == old_items@[0]);
                    }
                    cur = first;
                } else {
                    cur = Json::Array(items);
                    break;
                }
            },
            other => {
                cur = other;
                break;
            },
        }
    }
    let key = String::from_str("sha256");
    match cur {
        Json::Object(mut e) => {
            proof {
                lemma_object_view(e);
            }
            let ghost ev = entries_view(e@);
            assert(key@ == "sha256"@);
            let count = e.len();
            assert(ev.len() == count);
            proof {
                lemma_key_index_bounds(ev, key@);
            }
            match find_key(&e, &key) {
                Some(i) => {
                    assert(key_index(ev, key@) == Some(i as int));
                    proof {
                        lemma_key_index_bounds(ev, key@);
                    }
                    let ghost sv = sha256@;
                    e.set(i, (key, Json::String(sha256)));
                    assert(key_index(ev, "sha256"@) == Some(i as int));
                    assert(entries_view(e@) =~= ev.update(i as int, ("sha256"@, JsonView::String(sv))));
                    assert(entries_view(e@) == set_entry(ev, "sha256"@, JsonView::String(sv)));
                },
                None => {
                    let ghost sv = sha256@;
                    e.push((key, Json::String(sha256)));
                    assert(key_index(ev, "sha256"@) is None);
                    assert(entries_view(e@) =~= ev.push(("sha256"@, JsonView::String(sv))));
                },
            }
            proof {
                lemma_object_view(e);
            }
            Json::Object(e)
        },
        other => {
            let v = vec![(key, Json::String(sha256)), (String::from_str("data"), other)];
            proof {
                lemma_object_view(v);
                assert(entries_view(v@) =~= seq![("sha256"@, JsonView::String(sha256@)), ("data"@, other@)]);
            }
            Json::Object(v)
        },
    }
}

/// Whether no two entries of `e` have the same key.
pub open spec fn distinct_keys(e: Seq<(Seq<char>, JsonView)>) -> bool {
    forall|j: int, k: int| 0 <= j < k < e.len() ==> (#[trigger] e[j]).0 != (#[trigger] e[k]).0
}

/// Whether every object within `j`, at any depth, has each key once, as in
/// a JSON document read by serde_json.
pub open spec fn well_keyed(j: JsonView) -> bool
    decreases j,
{
    match j {
        JsonView::Array(items) => forall|i: int| 0 <= i < items.len() ==> well_keyed(#[trigger] items[i]),
        JsonView::Object(e) => distinct_keys(e) && forall|i: int|
            0 <= i < e.len() ==> well_keyed(#[trigger] e[i].1),
        _ => true,
    }
}

proof fn lemma_key_index_none(e: Seq<(Seq<char>, JsonView)>, k: Seq<char>)
    requires
        key_index(e, k) is None,
    ensures
        forall|j: int| 0 <= j < e.len() ==> (#[trigger] e[j]).0 != k,
    decreases e.len(),
{
    if e.len() > 0 {
        lemma_key_index_none(e.drop_last(), k);
        assert forall|j: int| 0 <= j < e.len() implies (#[trigger] e[j]).0 != k by {
            if j < e.len() - 1 {
                assert(e.drop_last()[j] == e[j]);
            }
        }
    }
}

/// Merging well-keyed documents gives a well-keyed document.
pub proof fn lemma_merge_keeps_keys_distinct(a: JsonView, b: JsonView)
    requires
        well_keyed(a),
        well_keyed(b),
    ensures
        well_keyed(merged(a, b)),
    decreases b, 0nat,
{
    match b {
        JsonView::Object(be) => match a {
            JsonView::Object(ae) => {
                lemma_merge_entries_keep_keys_distinct(ae, be, be.len());
            },
            _ => {},
        },
        JsonView::Array(bi) => match a {
            JsonView::Array(ai) => {
                assert forall|i: int| 0 <= i < (ai + bi).len() implies well_keyed(
                    #[trigger] (ai + bi)[i],
                ) by {
                    if i < ai.len() {
                        assert(well_keyed(ai[i]));
                    } else {
                        assert(well_keyed(bi[i - ai.len()]));
                    }
                }
            },
            _ => {},
        },
        _ => {},
    }
}

proof fn lemma_merge_entries_keep_keys_distinct(
    ae: Seq<(Seq<char>, JsonView)>,
    be: Seq<(Seq<char>, JsonView)>,
    n: nat,
)
    requires
        distinct_keys(ae),
        forall|i: int| 0 <= i < ae.len() ==> well_keyed(#[trigger] ae[i].1),
        forall|i: int| 0 <= i < be.len() ==> well_keyed(#[trigger] be[i].1),
    ensures
        distinct_keys(merge_entries(ae, be, n)),
        forall|i: int|
            0 <= i < merge_entries(ae, be, n).len() ==> well_keyed(
                #[trigger] merge_entries(ae, be, n)[i].1,
            ),
    decreases be, n,
{
    if n == 0 || n > be.len() {
    } else {
        lemma_merge_entries_keep_keys_distinct(ae, be, (n - 1) as nat);
        let s = merge_entries(ae, be, (n - 1) as nat);
        let (k, v) = be[n - 1];
        assert(well_keyed(be[n - 1].1));
        lemma_key_index_bounds(s, k);
        match key_index(s, k) {
            Some(i) => {
                assert(decreases_to!(be => be[n - 1]));
                lemma_merge_keeps_keys_distinct(s[i].1, v);
                let r = s.update(i, (k, merged(s[i].1, v)));
                assert forall|j: int, l: int| 0 <= j < l < r.len() implies (#[trigger] r[j]).0
                    != (#[trigger] r[l]).0 by {
                    assert(s[j].0 != s[l].0);
                }
            },
            None => {
                lemma_key_index_none(s, k);
                let r = s.push((k, v));
                assert forall|j: int, l: int| 0 <= j < l < r.len() implies (#[trigger] r[j]).0
                    != (#[trigger] r[l]).0 by {
                    if l < s.len() {
                        assert(s[j].0 != s[l].0);
                    } else {
                        assert(s[j].0 != k);
                    }
                }
            },
        }
    }
}

proof fn lemma_unwrap_keeps_keys_distinct(j: JsonView)
    requires
        well_keyed(j),
    ensures
        well_keyed(unwrap_singletons(j)),
    decreases j,
{
    match j {
        JsonView::Array(items) => if items.len() == 1 {
            assert(well_keyed(items[0]));
            lemma_unwrap_keeps_keys_distinct(items[0]);
        },
        _ => {},
    }
}

/// Stamping a well-keyed document gives a well-keyed document.
pub proof fn lemma_stamp_keeps_keys_distinct(j: JsonView, sha256: Seq<char>)
    requires
        well_keyed(j),
    ensures
        well_keyed(stamped(j, sha256)),
{
    lemma_unwrap_keeps_keys_distinct(j);
    let u = unwrap_singletons(j);
    reveal_strlit("sha256");
    reveal_strlit("data");
    match u {
        JsonView::Object(e) => {
            let v = JsonView::String(sha256);
            lemma_key_index_bounds(e, "sha256"@);
            match key_index(e, "sha256"@) {
                Some(i) => {
                    let r = e.update(i, ("sha256"@, v));
                    assert forall|a: int, b: int| 0 <= a < b < r.len() implies (#[trigger] r[a]).0
                        != (#[trigger] r[b]).0 by {
                        assert(e[a].0 != e[b].0);
                    }
                    assert forall|a: int| 0 <= a < r.len() implies well_keyed(#[trigger] r[a].1) by {
                        if a != i {
                            assert(well_keyed(e[a].1));
                        }
                    }
                    assert(stamped(j, sha256) == JsonView::Object(r));
                    assert(well_keyed(JsonView::Object(r)));
                },
                None => {
                    lemma_key_index_none(e, "sha256"@);
                    let r = e.push(("sha256"@, v));
                    assert forall|a: int, b: int| 0 <= a < b < r.len() implies (#[trigger] r[a]).0
                        != (#[trigger] r[b]).0 by {
                        if b < e.len() {
                            assert(e[a].0 != e[b].0);
                        } else {
                            assert(e[a].0 != "sha256"@);
                        }
                    }
                    assert forall|a: int| 0 <= a < r.len() implies well_keyed(#[trigger] r[a].1) by {
                        if a < e.len() {
                            assert(well_keyed(e[a].1));
                        }
                    }
                    assert(stamped(j, sha256) == JsonView::Object(r));
                    assert(well_keyed(JsonView::Object(r)));
                },
            }
        },
        _ => {
            let e = seq![("sha256"@, JsonView::String(sha256)), ("data"@, u)];
            assert("sha256"@[0] != "data"@[0]);
            assert(e[0].0 != e[1].0);
            assert(distinct_keys(e));
            assert(well_keyed(e[0].1));
            assert(well_keyed(e[1].1));
            assert(forall|a: int| 0 <= a < e.len() ==> well_keyed(#[trigger] e[a].1));
            assert(stamped(j, sha256) == JsonView::Object(e));
        },
    }
}

} // verus!
