use photocat::mapping::{apply_mappings, Mapping};
use photocat::meta::{MetaValue, MetaVariable};

fn mapping(variable: &str, match_values: &[&str], assign_value: &str) -> Mapping {
    Mapping {
        variable: String::from(variable),
        match_values: match_values.iter().map(|s| String::from(*s)).collect(),
        assign_value: String::from(assign_value),
    }
}

#[test]
fn test_apply_mappings() {
    let mut variables: Vec<MetaVariable> = vec![
        MetaVariable {
            name: String::from("V1"),
            value: MetaValue::String(String::from("A")),
        },
        MetaVariable {
            name: String::from("V2"),
            value: MetaValue::String(String::from("D")),
        },
        MetaVariable {
            name: String::from("V3"),
            value: MetaValue::Int(3),
        },
    ];

    let mappings: Vec<Mapping> = vec![
        Mapping {
            variable: String::from("V1"),
            match_values: vec![String::from("A"), String::from("B")],
            assign_value: String::from("10"),
        },
        Mapping {
            variable: String::from("V2"),
            match_values: vec![String::from("D")],
            assign_value: String::from("20"),
        },
    ];

    assert_eq!(variables[0].value.to_text(), "A");
    assert_eq!(variables[1].value.to_text(), "D");
    assert_eq!(variables[2].value.to_text(), "3");
    apply_mappings(&mappings, &mut variables);

    assert_eq!(variables[0].value.to_text(), "10");
    assert_eq!(variables[1].value.to_text(), "20");
    assert_eq!(variables[2].value.to_text(), "3");
}

#[test]
fn apply_matches_variable_and_value() {
    let m = mapping("V1", &["A", "B"], "C");
    assert_eq!(m.apply("V1", "A"), Some(String::from("C")));
    assert_eq!(m.apply("V1", "B"), Some(String::from("C")));
    assert_eq!(m.apply("V1", "X"), None);
    assert_eq!(m.apply("V2", "A"), None);
    assert_eq!(m.apply("", ""), None);
}

#[test]
fn mappings_apply_in_order_to_the_rewritten_text() {
    let mappings = vec![mapping("Make", &["5"], "five"), mapping("Make", &["five"], "FIVE")];
    let mut variables = vec![
        MetaVariable { name: String::from("Make"), value: MetaValue::UInt(5) },
        MetaVariable { name: String::from("Model"), value: MetaValue::UInt(5) },
    ];
    apply_mappings(&mappings, &mut variables);
    assert_eq!(variables[0].value, MetaValue::String(String::from("FIVE")));
    assert_eq!(variables[1].value, MetaValue::UInt(5));
    assert_eq!(variables[0].name, "Make");
}

#[test]
fn apply_mappings_on_no_variables() {
    let mappings = vec![mapping("V1", &["A"], "B")];
    let mut variables: Vec<MetaVariable> = Vec::new();
    apply_mappings(&mappings, &mut variables);
    assert!(variables.is_empty());
}
