use photocat::meta::UtcDateTime;
use photocat::query::{order_columns, sql_statements, Filters};
use photocat::text::split_text;

fn no_filters() -> Filters {
    Filters { sha256s: None, filename: None, url: None, limit: None, min_date: None, max_date: None }
}

#[test]
fn query_without_filters() {
    let q = no_filters().build_query(false);
    assert_eq!(q.sql, "SELECT filename, url, sha256, created_at, modified_at FROM fileindex ORDER BY CREATED_AT");
    assert!(q.params.is_empty());
    let q = no_filters().build_query(true);
    assert_eq!(
        q.sql,
        "SELECT filename, url, fileindex.sha256, created_at, modified_at, meta.* FROM fileindex JOIN meta ON (fileindex.sha256 = meta.sha256) ORDER BY CREATED_AT"
    );
}

#[test]
fn query_with_every_filter() {
    let d1 = UtcDateTime::new(2022, 9, 5, 23, 56, 4, 0).unwrap();
    let d2 = UtcDateTime::new(2023, 1, 2, 3, 4, 5, 0).unwrap();
    let f = Filters {
        sha256s: Some(String::from("a,b")),
        filename: Some(String::from("x")),
        url: Some(String::from("y")),
        limit: Some(5),
        min_date: Some(d1),
        max_date: Some(d2),
    };
    let q = f.build_query(false);
    assert_eq!(
        q.sql,
        "SELECT filename, url, sha256, created_at, modified_at FROM fileindex WHERE sha256 IN (?,?) AND filename LIKE ? AND url LIKE ? AND created_at >= CAST('2022-09-05T23:56:04+00:00' AS TIMESTAMP) AND modified_at >= CAST('2022-09-05T23:56:04+00:00' AS TIMESTAMP) AND created_at <= CAST('2023-01-02T03:04:05+00:00' AS TIMESTAMP) AND modified_at <= CAST('2023-01-02T03:04:05+00:00' AS TIMESTAMP) ORDER BY CREATED_AT LIMIT 5"
    );
    assert_eq!(q.params, vec!["a", "b", "%x%", "%y%"]);
}

#[test]
fn first_condition_takes_where() {
    let mut f = no_filters();
    f.url = Some(String::from("photos"));
    let q = f.build_query(false);
    assert_eq!(q.sql, "SELECT filename, url, sha256, created_at, modified_at FROM fileindex WHERE url LIKE ? ORDER BY CREATED_AT");
    assert_eq!(q.params, vec!["%photos%"]);

    let mut f = no_filters();
    f.max_date = UtcDateTime::new(2020, 2, 29, 0, 0, 0, 0);
    let q = f.build_query(false);
    assert_eq!(
        q.sql,
        "SELECT filename, url, sha256, created_at, modified_at FROM fileindex WHERE created_at <= CAST('2020-02-29T00:00:00+00:00' AS TIMESTAMP) AND modified_at <= CAST('2020-02-29T00:00:00+00:00' AS TIMESTAMP) ORDER BY CREATED_AT"
    );
    assert!(q.params.is_empty());
}

#[test]
fn empty_digest_list_still_binds_one_value() {
    let mut f = no_filters();
    f.sha256s = Some(String::new());
    let q = f.build_query(false);
    assert!(q.sql.contains(" WHERE sha256 IN (?) ORDER BY"));
    assert_eq!(q.params, vec![String::new()]);
}

#[test]
fn splitting_on_commas() {
    assert_eq!(split_text("", ','), vec![""]);
    assert_eq!(split_text("abc", ','), vec!["abc"]);
    assert_eq!(split_text("a,,b,", ','), vec!["a", "", "b", ""]);
    assert_eq!(split_text("é,ü", ','), vec!["é", "ü"]);
}

#[test]
fn script_statements_skip_blank_pieces() {
    let script = "CREATE TABLE t (a INT);\n  \nINSERT INTO t VALUES (1); ;\t\nSELECT 1";
    assert_eq!(
        sql_statements(script),
        vec!["CREATE TABLE t (a INT)", "\n  \nINSERT INTO t VALUES (1)", "\t\nSELECT 1"]
    );
    assert!(sql_statements("").is_empty());
    assert!(sql_statements(" ; \n;").is_empty());
}

#[test]
fn columns_come_by_id() {
    let cols = vec![
        (2, String::from("b"), String::from("INT")),
        (0, String::from("sha256"), String::from("VARCHAR")),
        (1, String::from("a"), String::from("DOUBLE")),
    ];
    let ids: Vec<i32> = order_columns(cols).iter().map(|c| c.0).collect();
    assert_eq!(ids, vec![0, 1, 2]);
}
