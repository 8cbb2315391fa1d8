use photocat::meta::{IndexFile, MetaValue, MetaVariable, UtcDateTime};
use photocat::value_counter::ValueCounter;

fn file(meta: &[(&str, MetaValue)]) -> IndexFile {
    let created = UtcDateTime::new(2022, 1, 1, 0, 0, 0, 0).unwrap();
    IndexFile {
        filename: String::from("/p/c.jpg"),
        url: String::from("file:///p/c.jpg"),
        sha256: String::from("22"),
        created_at: created,
        modified_at: created,
        meta: meta
            .iter()
            .map(|(n, v)| MetaVariable { name: String::from(*n), value: v.clone() })
            .collect(),
    }
}

fn counter(vars: &[&str]) -> ValueCounter {
    ValueCounter::new(vars.iter().map(|v| String::from(*v)).collect())
}

fn s(v: &str) -> MetaValue {
    MetaValue::String(String::from(v))
}

#[test]
fn one_variable_by_descending_count() {
    let mut c = counter(&["Make"]);
    c.add(&file(&[("Make", s("A"))]));
    c.add(&file(&[("Make", s("B"))]));
    c.add(&file(&[("Make", s("B"))]));
    c.add(&file(&[]));
    let t = c.table();
    assert_eq!(t.header, vec!["Make", "Count"]);
    assert_eq!(
        t.rows,
        vec![vec!["B", "2"], vec!["{}:MISSING", "1"], vec!["A", "1"]]
    );
}

#[test]
fn two_variables_cross_table() {
    let mut c = counter(&["Make", "ISO"]);
    c.add(&file(&[("Make", s("A")), ("ISO", MetaValue::UInt(100))]));
    c.add(&file(&[("Make", s("A")), ("ISO", MetaValue::UInt(200))]));
    c.add(&file(&[("Make", s("B")), ("ISO", MetaValue::UInt(100))]));
    c.add(&file(&[("Make", s("A")), ("ISO", MetaValue::UInt(100))]));
    let t = c.table();
    assert_eq!(t.header, vec!["↓ISO  Make → ", "A", "B"]);
    assert_eq!(t.rows, vec![vec!["100", "2", "1"], vec!["200", "1", "0"]]);
}

#[test]
fn three_variables_by_ascending_count() {
    let mut c = counter(&["C", "B", "A"]);
    let a = file(&[("A", MetaValue::Int(1)), ("B", MetaValue::Bool(true)), ("C", MetaValue::Null)]);
    let b = file(&[("A", MetaValue::Int(2))]);
    c.add(&a);
    c.add(&a);
    c.add(&b);
    let t = c.table();
    assert_eq!(t.header, vec!["Names", "Count"]);
    assert_eq!(
        t.rows,
        vec![
            vec!["A:Int:2,{}:MISSING,{}:MISSING", "1"],
            vec!["A:Int:1,B:Bool:true,C:Null:NULL", "2"],
        ]
    );
}

#[test]
fn no_variables_no_table() {
    let t = counter(&[]).table();
    assert!(t.header.is_empty());
    assert!(t.rows.is_empty());
}

#[test]
fn values_keep_colons_after_the_type() {
    let mut c = counter(&["Time"]);
    c.add(&file(&[("Time", s("12:30"))]));
    let t = c.table();
    assert_eq!(t.rows, vec![vec!["12:30", "1"]]);
}
