//! The SQL that the index database runs: the query that lists indexed
//! files, built from the listing's filters, the statements of a script, and
//! the order of the metadata columns.

use vstd::prelude::*;
use vstd::string::*;
use crate::meta::{clock_text, date_text, nat_text, u64_text, UtcDateTime};
use crate::text::{split_on, split_text, texts, trim_text, trimmed};
use crate::order::sort_ranked;

verus! {

/// The RFC 3339 text that chrono gives an instant in UTC:
/// `2022-09-05T23:56:04+00:00`.
pub open spec fn rfc3339_of(t: UtcDateTime) -> Seq<char> {
    date_text(t) + "T"@ + clock_text(t) + "+00:00"@
}

/// Relies on chrono's `NaiveDate::from_ymd_opt`, `NaiveDate::and_hms_nano_opt`
/// and `DateTime::<Utc>::to_rfc3339`, which writes the date, `T`, the time
/// with its fraction in the fewest of three, six or nine digits, and the
/// offset `+00:00`. Both constructors accept every well-formed value.
#[verifier::external_body]
fn rfc3339(t: &UtcDateTime) -> (r: String)
    requires
        t.wf(),
    ensures
        r@ == rfc3339_of(*t),
{
    let date = chrono::NaiveDate::from_ymd_opt(t.year, t.month, t.day).unwrap();
    let moment = date.and_hms_nano_opt(t.hour, t.minute, t.second, t.nanosecond).unwrap();
    moment.and_utc().to_rfc3339()
}

/// `n` question marks separated by commas.
pub open spec fn placeholders(n: nat) -> Seq<char>
    decreases n,
{
    if n == 0 {
        Seq::empty()
    } else if n == 1 {
        "?"@
    } else {
        placeholders((n - 1) as nat) + ",?"@
    }
}

/// The word that joins a condition to those before it.
pub open spec fn joiner(has_conditions: bool) -> Seq<char> {
    if has_conditions {
        " AND"@
    } else {
        " WHERE"@
    }
}

pub open spec fn base_query(has_meta: bool) -> Seq<char> {
    if has_meta {
        "SELECT filename, url, fileindex.sha256, created_at, modified_at, meta.* FROM fileindex JOIN meta ON (fileindex.sha256 = meta.sha256)"@
    } else {
        "SELECT filename, url, sha256, created_at, modified_at FROM fileindex"@
    }
}

/// The condition on the digests, if any are given.
pub open spec fn sha_condition(sha256s: Option<Seq<char>>) -> Seq<char> {
    match sha256s {
        Some(s) => " WHERE sha256 IN ("@ + placeholders(split_on(s, ',').len()) + ")"@,
        None => Seq::empty(),
    }
}

/// `LIKE` pattern of text that contains `s`.
pub open spec fn contains_pattern(s: Seq<char>) -> Seq<char> {
    "%"@ + s + "%"@
}

/// The condition `column LIKE ?`, if a text to look for is given.
pub open spec fn like_condition(has_conditions: bool, column: Seq<char>, s: Option<Seq<char>>) -> Seq<char> {
    match s {
        Some(_) => joiner(has_conditions) + " "@ + column + " LIKE ?"@,
        None => Seq::empty(),
    }
}

/// The condition that both timestamps are on a side of `t`, if given.
pub open spec fn date_condition(has_conditions: bool, op: Seq<char>, t: Option<UtcDateTime>) -> Seq<char> {
    match t {
        Some(t) => joiner(has_conditions) + " created_at "@ + op + " CAST('"@ + rfc3339_of(t)
            + "' AS TIMESTAMP) AND modified_at "@ + op + " CAST('"@ + rfc3339_of(t)
            + "' AS TIMESTAMP)"@,
        None => Seq::empty(),
    }
}

pub open spec fn limit_clause(limit: Option<usize>) -> Seq<char> {
    match limit {
        Some(n) => " LIMIT "@ + nat_text(n as nat),
        None => Seq::empty(),
    }
}

/// Text of an optional string.
pub open spec fn opt_view(s: Option<String>) -> Option<Seq<char>> {
    match s {
        Some(s) => Some(s@),
        None => None,
    }
}

/// A query and the values bound to its placeholders, in order.
pub struct Query {
    pub sql: String,
    pub params: Vec<String>,
}

/// The filters of a listing of indexed files.
pub struct Filters {
    /// Digests to keep, separated by commas.
    pub sha256s: Option<String>,
    /// Text that the file name contains.
    pub filename: Option<String>,
    /// Text that the URL contains.
    pub url: Option<String>,
    /// Largest number of rows.
    pub limit: Option<usize>,
    /// Earliest creation and modification time.
    pub min_date: Option<UtcDateTime>,
    /// Latest creation and modification time.
    pub max_date: Option<UtcDateTime>,
}

impl Filters {
    pub open spec fn wf(&self) -> bool {
        &&& (self.min_date matches Some(t) ==> t.wf())
        &&& (self.max_date matches Some(t) ==> t.wf())
    }

    /// The query text for these filters.
    pub open spec fn sql(&self, has_meta: bool) -> Seq<char> {
        let has_sha = self.sha256s is Some;
        let has_name = has_sha || self.filename is Some;
        let has_url = has_name || self.url is Some;
        let has_min = has_url || self.min_date is Some;
        base_query(has_meta) + sha_condition(opt_view(self.sha256s)) + like_condition(
            has_sha,
            "filename"@,
            opt_view(self.filename),
        ) + like_condition(has_name, "url"@, opt_view(self.url)) + date_condition(
            has_url,
            ">="@,
            self.min_date,
        ) + date_condition(has_min, "<="@, self.max_date) + " ORDER BY CREATED_AT"@
            + limit_clause(self.limit)
    }

    /// The values bound to the query's placeholders: the digests, then the
    /// patterns of the file name and of the URL.
    pub open spec fn params(&self) -> Seq<Seq<char>> {
        (match self.sha256s {
            Some(s) => split_on(s@, ','),
            None => Seq::empty(),
        }) + (match self.filename {
            Some(f) => seq![contains_pattern(f@)],
            None => Seq::empty(),
        }) + (match self.url {
            Some(u) => seq![contains_pattern(u@)],
            None => Seq::empty(),
        })
    }
}

/// Computes `placeholders`.
fn placeholder_list(n: usize) -> (r: String)
    ensures
        r@ == placeholders(n as nat),
{
    if n == 0 {
        return String::new();
    }
    let mut r = String::from_str("?");
    let mut i: usize = 1;
    while i < n
        invariant
            1 <= i <= n,
            r@ == placeholders(i as nat),
        decreases n - i,
    {
        r = r.concat(",?");
        i = i + 1;
    }
    r
}

fn joiner_text(has_conditions: bool) -> (r: &'static str)
    ensures
        r@ == joiner(has_conditions),
{
    if has_conditions {
        " AND"
    } else {
        " WHERE"
    }
}

fn like_text(has_conditions: bool, column: &str, s: &Option<String>) -> (r: String)
    ensures
        r@ == like_condition(has_conditions, column@, opt_view(*s)),
{
    match s {
        Some(_) => String::from_str(joiner_text(has_conditions)).concat(" ").concat(column).concat(
            " LIKE ?",
        ),
        None => String::new(),
    }
}

fn date_condition_text(has_conditions: bool, op: &str, t: &Option<UtcDateTime>) -> (r: String)
    requires
        t matches Some(t) ==> t.wf(),
    ensures
        r@ == date_condition(has_conditions, op@, *t),
{
    match t {
        Some(t) => {
            let text = rfc3339(t);
            String::from_str(joiner_text(has_conditions)).concat(" created_at ").concat(op).concat(
                " CAST('",
            ).concat(text.as_str()).concat("' AS TIMESTAMP) AND modified_at ").concat(op).concat(
                " CAST('",
            ).concat(text.as_str()).concat("' AS TIMESTAMP)")
        },
        None => String::new(),
    }
}

fn pattern_of(s: &String) -> (r: String)
    ensures
        r@ == contains_pattern(s@),
{
    String::from_str("%").concat(s.as_str()).concat("%")
}

fn sha_text(sha256s: &Option<String>) -> (r: String)
    ensures
        r@ == sha_condition(opt_view(*sha256s)),
{
    match sha256s {
        Some(s) => {
            let pieces = split_text(s.as_str(), ',');
            assert(texts(pieces@).len() == pieces@.len());
            let marks = placeholder_list(pieces.len());
            String::from_str(" WHERE sha256 IN (").concat(marks.as_str()).concat(")")
        },
        None => String::new(),
    }
}

fn limit_text(limit: Option<usize>) -> (r: String)
    ensures
        r@ == limit_clause(limit),
{
    match limit {
        Some(n) => {
            let digits = u64_text(n as u64);
            String::from_str(" LIMIT ").concat(digits.as_str())
        },
        None => String::new(),
    }
}

fn base_text(has_meta: bool) -> (r: String)
    ensures
        r@ == base_query(has_meta),
{
    if has_meta {
        String::from_str(
            "SELECT filename, url, fileindex.sha256, created_at, modified_at, meta.* FROM fileindex JOIN meta ON (fileindex.sha256 = meta.sha256)",
        )
    } else {
        String::from_str("SELECT filename, url, sha256, created_at, modified_at FROM fileindex")
    }
}

impl Filters {
    fn query_text(&self, has_meta: bool) -> (r: String)
        requires
            self.wf(),
        ensures
            r@ == self.sql(has_meta),
    {
        let has_sha = self.sha256s.is_some();
        let has_name = has_sha || self.filename.is_some();
        let has_url = has_name || self.url.is_some();
        let has_min = has_url || self.min_date.is_some();
        let sql = base_text(has_meta);
        let sql = sql.concat(sha_text(&self.sha256s).as_str());
        let sql = sql.concat(like_text(has_sha, "filename", &self.filename).as_str());
        let sql = sql.concat(like_text(has_name, "url", &self.url).as_str());
        let sql = sql.concat(date_condition_text(has_url, ">=", &self.min_date).as_str());
        let sql = sql.concat(date_condition_text(has_min, "<=", &self.max_date).as_str());
        let sql = sql.concat(" ORDER BY CREATED_AT");
        sql.concat(limit_text(self.limit).as_str())
    }

    fn query_params(&self) -> (r: Vec<String>)
        ensures
            texts(r@) == self.params(),
    {
        let mut params: Vec<String> = Vec::new();
        let ghost p0 = texts(params@);
        assert(p0 =~= Seq::<Seq<char>>::empty());
        match &self.sha256s {
            Some(s) => {
                let mut pieces = split_text(s.as_str(), ',');
                params.append(&mut pieces);
            },
            None => {},
        }
        let ghost p1 = texts(params@);
        assert(p1 =~= p0 + match self.sha256s {
            Some(s) => split_on(s@, ','),
            None => Seq::empty(),
        });
        match &self.filename {
            Some(f) => params.push(pattern_of(f)),
            None => {},
        }
        let ghost p2 = texts(params@);
        assert(p2 =~= p1 + match self.filename {
            Some(f) => seq![contains_pattern(f@)],
            None => Seq::empty(),
        });
        match &self.url {
            Some(u) => params.push(pattern_of(u)),
            None => {},
        }
        assert(texts(params@) =~= p2 + match self.url {
            Some(u) => seq![contains_pattern(u@)],
            None => Seq::empty(),
        });
        params
    }

    /// The query that lists the indexed files that pass these filters,
    /// oldest first; `has_meta` joins the metadata table.
    pub fn build_query(&self, has_meta: bool) -> (r: Query)
        requires
            self.wf(),
        ensures
            r.sql@ == self.sql(has_meta),
            texts(r.params@) == self.params(),
    {
        Query { sql: self.query_text(has_meta), params: self.query_params() }
    }
}

/// The pieces of `pieces` that hold more than whitespace.
pub open spec fn non_blank(pieces: Seq<Seq<char>>) -> Seq<Seq<char>>
    decreases pieces.len(),
{
    if pieces.len() == 0 {
        Seq::empty()
    } else {
        let rest = non_blank(pieces.drop_last());
        if trimmed(pieces.last()).len() > 0 {
            rest.push(pieces.last())
        } else {
            rest
        }
    }
}

/// The statements of an SQL script: the pieces between semicolons that hold
/// more than whitespace, as they stand.
pub fn sql_statements(sql: &str) -> (r: Vec<String>)
    ensures
        texts(r@) == non_blank(split_on(sql@, ';')),
{
    let pieces = split_text(sql, ';');
    let ghost all = texts(pieces@);
    let mut r: Vec<String> = Vec::new();
    let mut i: usize = 0;
    while i < pieces.len()
        invariant
            i <= pieces@.len(),
            all == texts(pieces@),
            texts(r@) == non_blank(all.subrange(0, i as int)),
        decreases pieces@.len() - i,
    {
        assert(all.subrange(0, i + 1).drop_last() =~= all.subrange(0, i as int));
        assert(all.subrange(0, i + 1).last() == pieces@[i as int]@);
        let t = trim_text(pieces[i].as_str());
        if t.as_str().unicode_len() > 0 {
            let ghost before = r@;
            r.push(pieces[i].clone());
            assert(texts(r@) =~= texts(before).push(pieces@[i as int]@));
        }
        i = i + 1;
    }
    assert(all.subrange(0, i as int) =~= all);
    r
}

/// The metadata columns, each an id, a name and a type, by ascending id.
pub fn order_columns(columns: Vec<(i32, String, String)>) -> (r: Vec<(i32, String, String)>)
    ensures
        r@.to_multiset() == columns@.to_multiset(),
        forall|i: int, j: int| 0 <= i < j < r@.len() ==> (#[trigger] r@[i]).0 <= (#[trigger] r@[j]).0,
{
    let ghost rank = |c: (i32, String, String)| c.0 as int;
    let mut ranked: Vec<(i128, (i32, String, String))> = Vec::new();
    let mut i: usize = 0;
    while i < columns.len()
        invariant
            i <= columns@.len(),
            ranked@.map_values(|e: (i128, (i32, String, String))| e.1) =~= columns@.subrange(0, i as int),
            forall|k: int| 0 <= k < ranked@.len() ==> (#[trigger] ranked@[k]).0 == ranked@[k].1.0 as int,
        decreases columns@.len() - i,
    {
        let ghost before = ranked@;
        let c = &columns[i];
        let entry = (c.0, c.1.clone(), c.2.clone());
        ranked.push((c.0 as i128, entry));
        assert(ranked@.map_values(|e: (i128, (i32, String, String))| e.1) =~= before.map_values(
            |e: (i128, (i32, String, String))| e.1,
        ).push(entry));
        assert(columns@.subrange(0, i + 1) =~= columns@.subrange(0, i as int).push(columns@[i as int]));
        i = i + 1;
    }
    assert(columns@.subrange(0, i as int) =~= columns@);
    assert(forall|k: int| 0 <= k < ranked@.len() ==> (#[trigger] ranked@[k]).0 == rank(ranked@[k].1));
    sort_ranked(ranked, Ghost(rank))
}

} // verus!
