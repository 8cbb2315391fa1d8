use photocat::meta::{IndexFile, MetaValue, MetaVariable, UtcDateTime};
use photocat::value_counter::ValueCounter;

fn file(meta: Vec<MetaVariable>) -> IndexFile {
    let created = UtcDateTime::new(2022, 1, 1, 0, 0, 0, 0).unwrap();
    IndexFile {
        filename: String::from("/p/a.jpg"),
        url: String::from("file:///p/a.jpg"),
        sha256: String::from("00"),
        created_at: created,
        modified_at: created,
        meta,
    }
}

fn var(name: &str, value: MetaValue) -> MetaVariable {
    MetaVariable { name: String::from(name), value }
}

#[test]
fn variables_are_kept_sorted() {
    let c = ValueCounter::new(vec![String::from("Model"), String::from("Lens"), String::from("ISO")]);
    assert_eq!(c.variables, vec!["ISO", "Lens", "Model"]);
    assert_eq!(c.values.len(), 3);
    assert!(c.counts.is_empty());
}

#[test]
fn combinations_are_counted() {
    let mut c = ValueCounter::new(vec![String::from("Model"), String::from("ISO")]);
    let a = file(vec![var("Model", MetaValue::String(String::from("X"))), var("ISO", MetaValue::UInt(100))]);
    let b = file(vec![var("Model", MetaValue::String(String::from("X")))]);
    c.add(&a);
    c.add(&a);
    c.add(&b);
    assert_eq!(
        c.counts,
        vec![
            (String::from("ISO:UInt:100,Model:String:X"), 2),
            (String::from("{}:MISSING,Model:String:X"), 1),
        ]
    );
    assert_eq!(c.values[0], vec!["ISO:UInt:100", "{}:MISSING"]);
    assert_eq!(c.values[1], vec!["Model:String:X"]);
    assert_eq!(c.added, 3);
}

#[test]
fn first_variable_of_a_name_counts() {
    let mut c = ValueCounter::new(vec![String::from("Flag")]);
    c.add(&file(vec![var("Flag", MetaValue::Bool(true)), var("Flag", MetaValue::Bool(false))]));
    assert_eq!(c.counts, vec![(String::from("Flag:Bool:true"), 1)]);
}

#[test]
fn no_variables_counts_the_empty_combination() {
    let mut c = ValueCounter::new(Vec::new());
    c.add(&file(Vec::new()));
    assert_eq!(c.counts, vec![(String::new(), 1)]);
}

#[test]
fn value_keys_are_kept_once() {
    let mut c = ValueCounter::new(vec![String::from("Make")]);
    let f = file(vec![var("Make", MetaValue::String(String::from("X")))]);
    c.add(&f);
    c.add(&f);
    c.add(&f);
    assert_eq!(c.values[0], vec!["Make:String:X"]);
    assert_eq!(c.table().rows, vec![vec!["X", "3"]]);
}
