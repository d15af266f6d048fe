use json_shape::schema::build;
use json_shape::schema::build_records;
use json_shape::generate;
use json_shape::print_rust_struct;
use json_shape::print_typescript_interface;
use json_shape::NumberKind;
use json_shape::SchemaError;
use json_shape::TypeTag;
use json_shape::Value;

fn obj(pairs: Vec<(&str, Value)>) -> Value {
    Value::Object(pairs.into_iter().map(|(k, v)| (k.to_string(), v)).collect())
}

fn text(t: &str) -> Value {
    Value::Text(t.to_string())
}

fn float() -> Value {
    Value::Number(NumberKind::Float)
}

fn signed() -> Value {
    Value::Number(NumberKind::Signed)
}

fn format_output(s: &str) -> String {
    s.lines()
        .map(|line| {
            let line = line.trim_start();
            if line.ends_with(',') {
                let len = line.len();
                format!("{};", &line[0..len - 1])
            } else {
                line.to_string()
            }
        })
        .collect::<Vec<String>>()
        .join("\n")
}

#[test]
fn test_print_rust_struct() {
    let records = vec![
        obj(vec![
            ("name", text("Alice")),
            ("age", float()),
            ("is_student", Value::Boolean(false)),
        ]),
        obj(vec![
            ("name", text("Bob")),
            ("age", float()),
            ("is_student", Value::Boolean(true)),
            ("address", Value::Null),
        ]),
    ];

    let expected_output = "address: Option<Value>;\nage: f64;\nis_student: bool;\nname: String;";

    let actual_output = format_output(&print_rust_struct(&records));
    assert_eq!(actual_output, expected_output);
}

#[test]
fn test_print_rust_struct_partial_fields() {
    let records = vec![
        obj(vec![("name", text("Alice")), ("age", float())]),
        obj(vec![("name", text("Bob")), ("is_student", Value::Boolean(true))]),
    ];

    let expected_output = "age: Option<f64>;\nis_student: Option<bool>;\nname: String;";

    let actual_output = format_output(&print_rust_struct(&records));
    assert_eq!(actual_output, expected_output);
}

#[test]
fn test_print_typescript_interface() {
    let records = vec![
        obj(vec![
            ("name", text("Alice")),
            ("age", float()),
            ("is_student", Value::Boolean(false)),
        ]),
        obj(vec![
            ("name", text("Bob")),
            ("age", float()),
            ("is_student", Value::Boolean(true)),
        ]),
    ];

    let expected_output = "age: number;\nis_student: boolean;\nname: string;";

    let actual_output = format_output(&print_typescript_interface(&records));
    assert_eq!(actual_output, expected_output);
}

#[test]
fn test_print_typescript_interface_partial_fields() {
    let records = vec![
        obj(vec![("name", text("Alice"))]),
        obj(vec![("name", text("Bob")), ("is_student", Value::Boolean(true))]),
    ];

    let expected_output = "is_student?: boolean;\nname: string;";

    let actual_output = format_output(&print_typescript_interface(&records));
    assert_eq!(actual_output, expected_output);
}

#[test]
fn scenario_integer_ages_with_null_address() {
    let records = vec![
        obj(vec![
            ("name", text("Alice")),
            ("age", signed()),
            ("is_student", Value::Boolean(false)),
        ]),
        obj(vec![
            ("name", text("Bob")),
            ("age", signed()),
            ("is_student", Value::Boolean(true)),
            ("address", Value::Null),
        ]),
    ];

    let schema = build_records(&records);
    let names: Vec<&str> = schema.fields.iter().map(|f| f.0.as_str()).collect();
    assert_eq!(names, vec!["address", "age", "is_student", "name"]);
    assert_eq!(schema.fields[0].1.tag, TypeTag::AnyOrNull);
    assert!(schema.fields[0].1.optional);
    assert_eq!(schema.fields[1].1.tag, TypeTag::SignedInt);
    assert!(!schema.fields[1].1.optional);
    assert_eq!(schema.fields[2].1.tag, TypeTag::Boolean);
    assert!(!schema.fields[2].1.optional);
    assert_eq!(schema.fields[3].1.tag, TypeTag::Str);
    assert!(!schema.fields[3].1.optional);
}

#[test]
fn scenario_fields_missing_from_one_record_are_optional() {
    let records = vec![
        obj(vec![("name", text("Alice")), ("age", signed())]),
        obj(vec![("name", text("Bob")), ("is_student", Value::Boolean(true))]),
    ];

    let schema = build_records(&records);
    let names: Vec<&str> = schema.fields.iter().map(|f| f.0.as_str()).collect();
    assert_eq!(names, vec!["age", "is_student", "name"]);
    assert!(schema.fields[0].1.optional);
    assert!(schema.fields[1].1.optional);
    assert!(!schema.fields[2].1.optional);
}

#[test]
fn scenario_interface_notation_marks_optional_fields() {
    let records = vec![
        obj(vec![("name", text("Alice"))]),
        obj(vec![("name", text("Bob")), ("is_student", Value::Boolean(true))]),
    ];

    let rendered = print_typescript_interface(&records);
    assert_eq!(rendered, "    is_student?: boolean;\n    name: string;\n");
}

#[test]
fn scenario_non_array_input_fails_with_shape_error() {
    let input = obj(vec![("name", text("Alice"))]);
    let result = build(&input);
    assert!(matches!(result, Err(SchemaError::InputShape)));

    let generated = generate(&input, "rust");
    assert!(matches!(generated, Err(SchemaError::InputShape)));
}

#[test]
fn scenario_non_object_entries_are_skipped() {
    let records = vec![
        obj(vec![("a", signed())]),
        signed(),
        text("stray"),
        obj(vec![("a", signed())]),
    ];

    let schema = build_records(&records);
    assert_eq!(schema.fields.len(), 1);
    assert_eq!(schema.fields[0].0, "a");
    assert_eq!(schema.fields[0].1.tag, TypeTag::SignedInt);
    assert!(!schema.fields[0].1.optional);
}

#[test]
fn determinism_two_runs_agree_field_for_field() {
    let records = vec![
        obj(vec![("b", text("x")), ("a", Value::Null)]),
        obj(vec![("a", signed()), ("c", Value::Boolean(true))]),
    ];

    let first = build_records(&records);
    let second = build_records(&records);
    assert_eq!(first.fields, second.fields);
}

#[test]
fn rendering_twice_is_byte_identical() {
    let records = vec![
        obj(vec![("b", text("x")), ("a", Value::Null)]),
        obj(vec![("a", signed()), ("c", Value::Boolean(true))]),
    ];

    let schema = build_records(&records);
    let rust_one = json_shape::render::render_rust(&schema);
    let rust_two = json_shape::render::render_rust(&schema);
    assert_eq!(rust_one.as_bytes(), rust_two.as_bytes());

    let ts_one = json_shape::render::render_typescript(&schema);
    let ts_two = json_shape::render::render_typescript(&schema);
    assert_eq!(ts_one.as_bytes(), ts_two.as_bytes());
}

#[test]
fn field_present_and_non_null_everywhere_is_required() {
    let records = vec![obj(vec![("only", signed())])];
    let schema = build_records(&records);
    assert_eq!(schema.fields.len(), 1);
    assert!(!schema.fields[0].1.optional);
}

#[test]
fn null_then_concrete_stays_optional_with_concrete_type() {
    let records = vec![
        obj(vec![("a", Value::Null)]),
        obj(vec![("a", signed())]),
    ];

    let schema = build_records(&records);
    assert_eq!(schema.fields[0].1.tag, TypeTag::SignedInt);
    assert!(schema.fields[0].1.optional);
    assert_eq!(print_rust_struct(&records), "    a: Option<i64>,\n");
}

#[test]
fn last_differing_type_wins() {
    let records = vec![
        obj(vec![("a", signed())]),
        obj(vec![("a", text("later"))]),
    ];

    let schema = build_records(&records);
    assert_eq!(schema.fields[0].1.tag, TypeTag::Str);
    assert!(!schema.fields[0].1.optional);
    assert_eq!(print_rust_struct(&records), "    a: String,\n");
}

#[test]
fn number_storage_classes_render_distinct_rust_tokens() {
    let records = vec![obj(vec![
        ("f", Value::Number(NumberKind::Float)),
        ("s", Value::Number(NumberKind::Signed)),
        ("u", Value::Number(NumberKind::Unsigned)),
    ])];

    assert_eq!(
        print_rust_struct(&records),
        "    f: f64,\n    s: i64,\n    u: u64,\n"
    );
    assert_eq!(
        print_typescript_interface(&records),
        "    f: number;\n    s: number;\n    u: number;\n"
    );
}

#[test]
fn nested_values_are_opaque_leaf_kinds() {
    let records = vec![obj(vec![
        ("arr", Value::Array(vec![signed(), text("x")])),
        ("map", obj(vec![("inner", signed())])),
    ])];

    assert_eq!(
        print_rust_struct(&records),
        "    arr: Vec<Value>,\n    map: HashMap<String, Value>,\n"
    );
    assert_eq!(
        print_typescript_interface(&records),
        "    arr: Array;\n    map: Record<string, unknown>;\n"
    );
}

#[test]
fn field_only_ever_null_keeps_placeholder_type() {
    let records = vec![obj(vec![("gone", Value::Null)])];
    assert_eq!(print_rust_struct(&records), "    gone: Option<Value>,\n");
    assert_eq!(print_typescript_interface(&records), "    gone?: null;\n");
}

#[test]
fn empty_record_sequence_yields_empty_schema() {
    let records: Vec<Value> = vec![];
    let schema = build_records(&records);
    assert!(schema.fields.is_empty());
    assert_eq!(print_rust_struct(&records), "");
}

#[test]
fn unknown_notation_is_rejected_without_fallback() {
    let input = Value::Array(vec![obj(vec![("a", signed())])]);
    let result = generate(&input, "python");
    assert!(matches!(result, Err(SchemaError::UnknownNotation)));
    let empty = generate(&input, "");
    assert!(matches!(empty, Err(SchemaError::UnknownNotation)));
}

#[test]
fn generate_wraps_declarations_per_notation() {
    let input = Value::Array(vec![
        obj(vec![("name", text("Alice")), ("age", signed())]),
        obj(vec![("name", text("Bob")), ("age", signed())]),
    ]);

    let rust = generate(&input, "rust").unwrap();
    assert_eq!(rust, "struct Data {\n    age: i64,\n    name: String,\n}");

    let ts = generate(&input, "typescript").unwrap();
    assert_eq!(ts, "interface Data {\n    age: number;\n    name: string;\n}");
}
