use rsfm::parser::{matches_array, parse_tree, validate, Diagnostic, VarDesc};
use rsfm::schema::{lookup_schema, parse_index, schema_path_list};
use rsfm::similar::MAX_SIMILARITY_DISTANCE;
use rsfm::value::{Key, Value, ValueType};

fn key(name: &str) -> Key {
    Key::Str(name.to_string())
}

fn table(entries: Vec<(Key, Value)>) -> Value {
    Value::Table(entries)
}

#[test]
fn replace_array_index() {
    let actual = rsfm::schema::replace_array_index("root.var1.1.var2.2");
    assert_eq!(actual, "root.var1.{}.var2.{}");
}

#[test]
fn replace_array_index_edges() {
    assert_eq!(rsfm::schema::replace_array_index(""), "");
    assert_eq!(rsfm::schema::replace_array_index("7"), "{}");
    assert_eq!(rsfm::schema::replace_array_index("a..b"), "a..b");
    assert_eq!(rsfm::schema::replace_array_index("a.+3.65535.70000.-1.x1"), "a.{}.{}.{}.-1.x1");
    assert_eq!(rsfm::schema::replace_array_index("70000"), "{}");
    assert_eq!(rsfm::schema::replace_array_index("rsfm.entry_format"), "rsfm.entry_format");
}

#[test]
fn parse_index_values() {
    assert_eq!(parse_index("0"), Some(false));
    assert_eq!(parse_index("000"), Some(false));
    assert_eq!(parse_index("+12"), Some(true));
    assert_eq!(parse_index("65536"), Some(true));
    assert_eq!(parse_index("123456789012345678901234567890"), Some(true));
    assert_eq!(parse_index("-1"), None);
    assert_eq!(parse_index("+"), None);
    assert_eq!(parse_index(""), None);
    assert_eq!(parse_index("1a"), None);
}

#[test]
fn find_similar() {
    let paths = schema_path_list();
    assert_eq!(
        rsfm::similar::find_similar("rsfm.show_hidxxx", &paths, MAX_SIMILARITY_DISTANCE),
        Some("rsfm.show_hidden")
    );
    assert_eq!(rsfm::similar::find_similar("rsfm.show_hixxxx", &paths, MAX_SIMILARITY_DISTANCE), None);
    // Equally near to the list and to its element: the one scanned first wins.
    assert_eq!(
        rsfm::similar::find_similar("rsfm.entry_format.x", &paths, MAX_SIMILARITY_DISTANCE),
        Some("rsfm.entry_format.{}")
    );
    assert_eq!(rsfm::similar::find_similar("abc", &vec!["abd", "abc"], 0), Some("abc"));
    assert_eq!(rsfm::similar::find_similar("abc", &vec![], 3), None);
}

#[test]
fn schema_lookup() {
    assert_eq!(lookup_schema("rsfm.show_hidden"), Some(ValueType::Boolean));
    assert_eq!(lookup_schema("rsfm.entry_format.{}.width"), Some(ValueType::Integer));
    assert_eq!(lookup_schema("rsfm.entry_format.1.width"), None);
    assert_eq!(lookup_schema("rsfm"), None);
}

#[test]
fn walk_order_and_paths() {
    let root = table(vec![
        (key("a"), table(vec![(Key::Int(1), Value::Nil), (Key::Int(-20), Value::Str("x".to_string()))])),
        (key("b"), Value::Integer(3)),
    ]);
    let vars = parse_tree("r", &root);
    let names: Vec<&str> = vars.iter().map(|v| v.name.as_str()).collect();
    assert_eq!(names, vec!["r.a", "r.a.1", "r.a.-20", "r.b"]);
    let types: Vec<ValueType> = vars.iter().map(|v| v.value_type).collect();
    assert_eq!(
        types,
        vec![ValueType::Table, ValueType::Nil, ValueType::String, ValueType::Integer]
    );
    assert!(parse_tree("r", &Value::Integer(1)).is_empty());
}

#[test]
fn array_element_check() {
    let var = |name: &str| VarDesc { name: name.to_string(), value_type: ValueType::Integer };
    assert!(matches_array(&var("rsfm.entry_format.1.2")));
    assert!(!matches_array(&var("rsfm.entry_format.1.0")));
    assert!(matches_array(&var("rsfm.entry_format.1.70000")));
    assert!(!matches_array(&var("rsfm.entry_format.1.x")));
    assert!(!matches_array(&var("rsfm.show_hidden.1")));
    assert!(!matches_array(&var("rsfm")));
}

#[test]
fn unknown_path_reported_once_without_mismatch() {
    let root = table(vec![
        (key("entry_format"), table(vec![(Key::Int(1), table(vec![(key("x"), Value::Integer(3))]))])),
        (key("x"), Value::Integer(3)),
    ]);
    let found = validate("rsfm", &root);
    assert_eq!(found.len(), 2);
    let unknown: Vec<&Diagnostic> = found
        .iter()
        .filter(|d| match d {
            Diagnostic::UnknownPath { path } => path == "rsfm.x",
            Diagnostic::UnknownPathWithSuggestion { path, .. } => path == "rsfm.x",
            _ => false,
        })
        .collect();
    assert_eq!(unknown.len(), 1);
    assert!(!found.iter().any(|d| matches!(d, Diagnostic::TypeMismatch { .. })));
}

#[test]
fn nothing_reported_below_mismatch() {
    let root = table(vec![(
        key("entry_format"),
        table(vec![(Key::Int(1), Value::Boolean(true)), (Key::Int(2), table(vec![(key("zzz"), Value::Nil)]))]),
    )]);
    let found = validate("rsfm", &root);
    assert_eq!(found.len(), 2);
    assert_eq!(
        found[0].message(),
        "Unexpected type 'boolean' for variable 'rsfm.entry_format.1', use 'table'"
    );
    assert_eq!(found[1].message(), "Unknown variable 'rsfm.entry_format.{}.zzz'");

    let root = table(vec![(
        key("show_hidden"),
        table(vec![(key("deep"), table(vec![(key("deeper"), Value::Integer(1))]))]),
    )]);
    let found = validate("rsfm", &root);
    assert_eq!(found.len(), 1);
    assert_eq!(
        found[0].message(),
        "Unexpected type 'table' for variable 'rsfm.show_hidden', use 'boolean'"
    );
}

#[test]
fn conforming_config_is_clean() {
    let entry = |t: &str| {
        table(vec![
            (key("type"), Value::Str(t.to_string())),
            (key("width"), Value::Integer(7)),
            (key("is_fixed_width"), Value::Boolean(true)),
        ])
    };
    let root = table(vec![
        (key("entry_format"), table(vec![(Key::Int(1), entry("name")), (Key::Int(70000), entry("anything"))])),
        (key("show_hidden"), Value::Boolean(true)),
    ]);
    assert!(validate("rsfm", &root).is_empty());
}
