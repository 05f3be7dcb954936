use rsfm::column::{Alignment, Column, ColumnType};
use rsfm::options::{parse_values, BindWarning, EntryIssue};
use rsfm::parser::{parse_syntax, CheckResult};
use rsfm::value::{Key, Value};
use rsfm::ViewOptions;

fn key(name: &str) -> Key {
    Key::Str(name.to_string())
}

fn text(s: &str) -> Value {
    Value::Str(s.to_string())
}

fn table(entries: Vec<(Key, Value)>) -> Value {
    Value::Table(entries)
}

fn column_entry(kind_name: &str, width: i64, is_fixed_width: bool) -> Value {
    table(vec![
        (key("type"), text(kind_name)),
        (key("width"), Value::Integer(width)),
        (key("is_fixed_width"), Value::Boolean(is_fixed_width)),
    ])
}

fn check(rsfm: Value) -> CheckResult {
    parse_syntax("rsfm", &rsfm)
}

fn bind(rsfm: Value) -> (ViewOptions, Vec<BindWarning>) {
    let mut warnings = Vec::new();
    let options = parse_values(&rsfm, &mut warnings).unwrap();
    (options, warnings)
}

#[test]
fn correct_syntax() {
    // rsfm.show_hidden = false
    // rsfm.entry_format = { {type="name", width=5, is_fixed_width=false},
    //                       {type="size", width=5, is_fixed_width=true} }
    let rsfm = table(vec![
        (key("show_hidden"), Value::Boolean(false)),
        (
            key("entry_format"),
            table(vec![
                (Key::Int(1), column_entry("name", 5, false)),
                (Key::Int(2), column_entry("size", 5, true)),
            ]),
        ),
    ]);
    assert!(check(rsfm).is_ok());
}

#[test]
fn no_rsfm() {
    // var = 4 is set outside the rsfm table, which stays empty.
    let rsfm = table(vec![]);
    assert!(check(rsfm).is_ok());
}

#[test]
fn unexpected_type() {
    // rsfm.show_hidden = { x = 3 }
    // rsfm.entry_format = { { type = false } }
    let rsfm = table(vec![
        (key("show_hidden"), table(vec![(key("x"), Value::Integer(3))])),
        (
            key("entry_format"),
            table(vec![(Key::Int(1), table(vec![(key("type"), Value::Boolean(false))]))]),
        ),
    ]);

    let result = check(rsfm);
    assert!(result.is_err());

    let result = result.unwrap_err();
    assert_eq!(result.len(), 2);
    assert!(result
        .iter()
        .find(|&e| {
            e.eq("Unexpected type 'table' for variable 'rsfm.show_hidden', use 'boolean'")
        })
        .is_some(),);
    assert!(result
        .iter()
        .find(|&e| {
            e.eq("Unexpected type 'boolean' for variable 'rsfm.entry_format.1.type', use 'string'")
        })
        .is_some(),);
}

#[test]
fn unknown_variable() {
    // rsfm.show_hidxxx = true
    // rsfm.show_hixxxx = true
    // rsfm.show_hidden = { false }
    // rsfm.entry_format = { x = 3 }
    // rsfm.var = true
    let rsfm = table(vec![
        (key("show_hidxxx"), Value::Boolean(true)),
        (key("show_hixxxx"), Value::Boolean(true)),
        (key("show_hidden"), table(vec![(Key::Int(1), Value::Boolean(false))])),
        (key("entry_format"), table(vec![(key("x"), Value::Integer(3))])),
        (key("var"), Value::Boolean(true)),
    ]);

    let result = check(rsfm);
    assert!(result.is_err());

    let result = result.unwrap_err();
    println!("{:?}", result);
    assert_eq!(result.len(), 5);
    assert!(result
        .iter()
        .find(|&e| { e.eq("Unknown variable 'rsfm.show_hixxxx'") })
        .is_some(),);
    assert!(result
        .iter()
        .find(|&e| {
            e.eq("Unknown variable 'rsfm.show_hidxxx'. Did you mean 'rsfm.show_hidden'?")
        })
        .is_some(),);
    assert!(result
        .iter()
        .find(|&e| {
            e.eq("Unexpected type 'table' for variable 'rsfm.show_hidden', use 'boolean'")
        })
        .is_some(),);
    assert!(result
        .iter()
        .find(|&e| {
            e.eq("Unknown variable 'rsfm.entry_format.x'. Did you mean 'rsfm.entry_format.{}'?")
        })
        .is_some(),);
    assert!(result
        .iter()
        .find(|&e| { e.eq("Unknown variable 'rsfm.var'") })
        .is_some(),);
}

#[test]
fn unknown_variable_in_table() {
    // rsfm.entry_format = { { x = 3 } }
    let rsfm = table(vec![(
        key("entry_format"),
        table(vec![(Key::Int(1), table(vec![(key("x"), Value::Integer(3))]))]),
    )]);

    let result = check(rsfm);
    assert!(result.is_err());

    let result = result.unwrap_err();
    assert_eq!(result.len(), 1);
    assert_eq!(
        result[0],
        "Unknown variable 'rsfm.entry_format.{}.x'. Did you mean 'rsfm.entry_format.{}'?"
    );

    // rsfm.entry_format = { { hype = 3 } }
    let rsfm = table(vec![(
        key("entry_format"),
        table(vec![(Key::Int(1), table(vec![(key("hype"), Value::Integer(3))]))]),
    )]);

    let result = check(rsfm);
    assert!(result.is_err());

    let result = result.unwrap_err();
    assert_eq!(result.len(), 1);
    assert_eq!(
        result[0],
        "Unknown variable 'rsfm.entry_format.{}.hype'. Did you mean 'rsfm.entry_format.{}.type'?"
    );
}

#[test]
fn correct_values() {
    let rsfm = table(vec![
        (key("show_hidden"), Value::Boolean(false)),
        (
            key("entry_format"),
            table(vec![
                (Key::Int(1), column_entry("name", 5, false)),
                (Key::Int(2), column_entry("SiZe", 50, true)),
            ]),
        ),
    ]);

    let (view_options, warnings) = bind(rsfm);
    assert_eq!(view_options.show_hidden, false);
    assert_eq!(view_options.entry_format.len(), 2);
    assert!(warnings.is_empty());

    let expected_0 = Column {
        column_type: ColumnType::from("name").unwrap(),
        width: 5,
        is_fixed_width: false,
        alignment: Alignment::Left,
    };
    let expected_1 = Column {
        column_type: ColumnType::from("size").unwrap(),
        width: 50,
        is_fixed_width: true,
        alignment: Alignment::Left,
    };
    assert_eq!(view_options.entry_format[0], expected_0);
    assert_eq!(view_options.entry_format[1], expected_1);
}

#[test]
fn entry_format_incomplete() {
    let rsfm = table(vec![
        (key("show_hidden"), Value::Boolean(false)),
        (
            key("entry_format"),
            table(vec![(
                Key::Int(1),
                table(vec![(key("type"), text("name")), (key("width"), Value::Integer(5))]),
            )]),
        ),
    ]);

    let (view_options, warnings) = bind(rsfm);
    assert_eq!(view_options.show_hidden, false);
    assert_eq!(view_options.entry_format.len(), 0);
    assert_eq!(warnings.len(), 1);
    assert_eq!(warnings[0].issue, EntryIssue::FixedWidthMissing);
    assert_eq!(
        warnings[0].message(),
        "Error parsing 'rsfm.entry_format.1.is_fixed_width': value not found or not a boolean"
    );
}

#[test]
fn entry_format_zero_width() {
    let rsfm = table(vec![
        (key("show_hidden"), Value::Boolean(false)),
        (key("entry_format"), table(vec![(Key::Int(1), column_entry("name", 0, false))])),
    ]);

    let (view_options, warnings) = bind(rsfm);
    assert_eq!(view_options.show_hidden, false);
    assert_eq!(view_options.entry_format.len(), 0);
    assert_eq!(warnings.len(), 1);
    assert_eq!(warnings[0].issue, EntryIssue::WidthZero);
    assert_eq!(
        warnings[0].message(),
        "Error parsing 'rsfm.entry_format.1.width': value can not be 0"
    );
}

#[test]
fn entry_format_wrong_type() {
    let rsfm = table(vec![
        (key("show_hidden"), Value::Boolean(false)),
        (key("entry_format"), table(vec![(Key::Int(1), column_entry("type", 10, false))])),
    ]);

    let (view_options, warnings) = bind(rsfm);
    assert_eq!(view_options.show_hidden, false);
    assert_eq!(view_options.entry_format.len(), 0);
    assert_eq!(warnings.len(), 1);
    assert_eq!(warnings[0].issue, EntryIssue::UnknownType);
}

#[test]
fn each_dropped_entry_is_named() {
    let rsfm = table(vec![(
        key("entry_format"),
        table(vec![
            (key("first"), column_entry("name", 5, false)),
            (Key::Int(2), Value::Integer(4)),
            (Key::Int(3), table(vec![(key("width"), Value::Integer(5))])),
            (Key::Int(4), column_entry("size", 70000, true)),
            (Key::Int(5), column_entry("size", -1, true)),
            (Key::Int(6), column_entry("Name", 9, true)),
            (Key::Int(70000), column_entry("name", 5, false)),
            (Key::Int(0), column_entry("name", 5, false)),
        ]),
    )]);
    let (view_options, warnings) = bind(rsfm);
    assert_eq!(view_options.show_hidden, false);
    assert_eq!(view_options.entry_format.len(), 2);
    assert_eq!(view_options.entry_format[0], Column::new("NAME", 9, true));
    assert_eq!(view_options.entry_format[1], Column::new("name", 5, false));
    let issues: Vec<EntryIssue> = warnings.iter().map(|w| w.issue).collect();
    assert_eq!(
        issues,
        vec![
            EntryIssue::NotAnIndex,
            EntryIssue::NotATable,
            EntryIssue::TypeMissing,
            EntryIssue::WidthInvalid,
            EntryIssue::WidthInvalid,
            EntryIssue::NotAnIndex,
        ]
    );
    assert_eq!(warnings[0].message(), "Error parsing 'rsfm.entry_format.first': key is not a list position");
    assert_eq!(warnings[1].message(), "Error parsing 'rsfm.entry_format.2': value is not a table");
    assert_eq!(
        warnings[2].message(),
        "Error parsing 'rsfm.entry_format.3.type': value not found or not a string"
    );
}

#[test]
fn one_bad_entry_among_two() {
    let missing = table(vec![(key("type"), text("size")), (key("width"), Value::Integer(3))]);
    let rsfm = table(vec![(
        key("entry_format"),
        table(vec![(Key::Int(1), column_entry("name", 5, false)), (Key::Int(2), missing)]),
    )]);
    let (view_options, _) = bind(rsfm);
    assert_eq!(view_options.entry_format.len(), 1);

    let rsfm = table(vec![(
        key("entry_format"),
        table(vec![(Key::Int(1), column_entry("name", 0, false)), (Key::Int(2), column_entry("size", 10, true))]),
    )]);
    let (view_options, _) = bind(rsfm);
    assert_eq!(view_options.entry_format.len(), 1);
    assert_eq!(view_options.entry_format[0].column_type, ColumnType::Size);
}

#[test]
fn show_hidden_binding() {
    let (view_options, _) = bind(table(vec![(key("show_hidden"), Value::Boolean(true))]));
    assert!(view_options.show_hidden);
    let (view_options, _) = bind(table(vec![(key("show_hidden"), Value::Integer(1))]));
    assert!(!view_options.show_hidden);
    assert!(view_options.entry_format.is_empty());
}

#[test]
fn root_must_be_a_table() {
    let mut warnings = Vec::new();
    assert!(parse_values(&Value::Integer(3), &mut warnings).is_err());
    assert!(warnings.is_empty());
    assert!(check(Value::Nil).is_ok());
}

#[test]
fn names_ignore_case() {
    assert_eq!(ColumnType::from("NaMe"), Ok(ColumnType::Name));
    assert_eq!(ColumnType::from("info"), Err(()));
    assert_eq!(ColumnType::from_lowercase("Name"), Err(()));
    assert_eq!(Alignment::from("CENTER"), Ok(Alignment::Center));
    assert_eq!(Alignment::from("right"), Ok(Alignment::Right));
    assert_eq!(Alignment::from("Left"), Ok(Alignment::Left));
    assert_eq!(Alignment::from("middle"), Err(()));
    let c = Column::new("Size", 12, false);
    assert_eq!(c.column_type, ColumnType::Size);
    assert_eq!(c.alignment, Alignment::Left);
}
