use photocat::json::{merge, stamp, Json};

fn text(s: &str) -> Json {
    Json::String(String::from(s))
}

fn object(entries: Vec<(&str, Json)>) -> Json {
    Json::Object(entries.into_iter().map(|(k, v)| (String::from(k), v)).collect())
}

fn base() -> Json {
    object(vec![
        ("string", text("This is a string")),
        ("dict", object(vec![("a", text("A")), ("b", text("B"))])),
        ("array", Json::Array(vec![text("I"), text("J")])),
    ])
}

#[test]
fn test_merge() {
    let mut a = base();
    let b = object(vec![
        ("string", text("This is another string")),
        ("dict", object(vec![("a", text("A_2"))])),
        ("array", Json::Array(vec![text("K")])),
    ]);

    merge(&mut a, b);

    let expected = object(vec![
        ("string", text("This is another string")),
        ("dict", object(vec![("a", text("A_2")), ("b", text("B"))])),
        ("array", Json::Array(vec![text("I"), text("J"), text("K")])),
    ]);
    assert_eq!(a, expected);
}

#[test]
fn test_merge_with_empty_object() {
    let mut a = base();
    merge(&mut a, object(vec![]));
    assert_eq!(a, base());
}

#[test]
fn test_merge_with_empty_array() {
    let mut a = base();
    merge(&mut a, object(vec![("array", Json::Array(vec![]))]));
    assert_eq!(a, base());
}

#[test]
fn merge_adds_new_keys_and_replaces_other_kinds() {
    let mut a = object(vec![("x", Json::Number(String::from("1")))]);
    merge(&mut a, object(vec![("y", Json::Bool(true)), ("x", Json::Array(vec![Json::Null]))]));
    assert_eq!(
        a,
        object(vec![("x", Json::Array(vec![Json::Null])), ("y", Json::Bool(true))])
    );
    let mut n = Json::Null;
    merge(&mut n, text("v"));
    assert_eq!(n, text("v"));
    let mut arr = Json::Array(vec![text("a")]);
    merge(&mut arr, object(vec![]));
    assert_eq!(arr, object(vec![]));
}

#[test]
fn stamp_unwraps_single_item_arrays() {
    let doc = Json::Array(vec![Json::Array(vec![object(vec![("Make", text("X"))])])]);
    assert_eq!(
        stamp(doc, String::from("ab")),
        object(vec![("Make", text("X")), ("sha256", text("ab"))])
    );
}

#[test]
fn stamp_replaces_an_existing_digest() {
    let doc = object(vec![("sha256", text("old")), ("k", Json::Null)]);
    assert_eq!(
        stamp(doc, String::from("new")),
        object(vec![("sha256", text("new")), ("k", Json::Null)])
    );
}

#[test]
fn stamp_wraps_other_values() {
    let doc = || Json::Array(vec![text("a"), text("b")]);
    assert_eq!(
        stamp(doc(), String::from("cd")),
        object(vec![("sha256", text("cd")), ("data", doc())])
    );
    assert_eq!(
        stamp(Json::Null, String::from("cd")),
        object(vec![("sha256", text("cd")), ("data", Json::Null)])
    );
}
