use noir_harness::abi::{Abi, AbiField, AbiType, InputValue};
use noir_harness::decode::decode_value;
use noir_harness::encode::encode_inputs;
use noir_harness::errors::{debug_string, Error};
use noir_harness::select::{collect_programs, select_function, select_library, PackageInfo};

fn sb(n: u8) -> [u8; 32] {
    let mut a = [0u8; 32];
    a[31] = n;
    a
}

fn field(name: &str) -> AbiField {
    AbiField { name: name.to_string(), typ: AbiType::Field }
}

fn same_value(a: &InputValue, b: &InputValue) -> bool {
    match (a, b) {
        (InputValue::Scalar(x), InputValue::Scalar(y)) => x == y,
        (InputValue::Sequence(xs), InputValue::Sequence(ys)) => {
            xs.len() == ys.len() && xs.iter().zip(ys.iter()).all(|(x, y)| same_value(x, y))
        }
        (InputValue::Record(xs), InputValue::Record(ys)) => {
            xs.len() == ys.len()
                && xs
                    .iter()
                    .zip(ys.iter())
                    .all(|(x, y)| x.0 == y.0 && same_value(&x.1, &y.1))
        }
        _ => false,
    }
}

#[test]
fn encode_orders_by_abi_not_by_mapping() {
    let abi = Abi { parameters: vec![field("x"), field("y")], return_type: None };
    let inputs = vec![
        ("y".to_string(), InputValue::Scalar(sb(9))),
        ("x".to_string(), InputValue::Scalar(sb(7))),
    ];
    let w = encode_inputs(&abi, &inputs).unwrap();
    assert_eq!(w, vec![sb(7), sb(9)]);
}

#[test]
fn encode_missing_parameter_is_encode_error() {
    let abi = Abi { parameters: vec![field("x"), field("y")], return_type: None };
    let inputs = vec![("x".to_string(), InputValue::Scalar(sb(2)))];
    let e = encode_inputs(&abi, &inputs).unwrap_err();
    assert!(matches!(e, Error::EncodeError(_)));
    assert_eq!(e.message(), "y");
}

#[test]
fn encode_arity_mismatch_is_encode_error() {
    let abi = Abi {
        parameters: vec![AbiField {
            name: "a".to_string(),
            typ: AbiType::Array { length: 2, element: Box::new(AbiType::Field) },
        }],
        return_type: None,
    };
    let inputs = vec![(
        "a".to_string(),
        InputValue::Sequence(vec![
            InputValue::Scalar(sb(1)),
            InputValue::Scalar(sb(2)),
            InputValue::Scalar(sb(3)),
        ]),
    )];
    let e = encode_inputs(&abi, &inputs).unwrap_err();
    assert!(matches!(e, Error::EncodeError(_)));
}

#[test]
fn encode_flattens_composites_in_declared_order() {
    let abi = Abi {
        parameters: vec![AbiField {
            name: "p".to_string(),
            typ: AbiType::Struct {
                fields: vec![
                    field("a"),
                    AbiField {
                        name: "b".to_string(),
                        typ: AbiType::Array { length: 2, element: Box::new(AbiType::Field) },
                    },
                ],
            },
        }],
        return_type: None,
    };
    let value = InputValue::Record(vec![
        ("a".to_string(), InputValue::Scalar(sb(1))),
        (
            "b".to_string(),
            InputValue::Sequence(vec![InputValue::Scalar(sb(2)), InputValue::Scalar(sb(3))]),
        ),
    ]);
    let inputs = vec![("p".to_string(), value)];
    let w = encode_inputs(&abi, &inputs).unwrap();
    assert_eq!(w, vec![sb(1), sb(2), sb(3)]);
}

fn composite_type() -> AbiType {
    AbiType::Struct {
        fields: vec![
            AbiField {
                name: "first".to_string(),
                typ: AbiType::Array { length: 2, element: Box::new(AbiType::Field) },
            },
            field("second"),
        ],
    }
}

fn composite_value() -> InputValue {
    InputValue::Record(vec![
        (
            "first".to_string(),
            InputValue::Sequence(vec![InputValue::Scalar(sb(5)), InputValue::Scalar(sb(6))]),
        ),
        ("second".to_string(), InputValue::Scalar(sb(7))),
    ])
}

#[test]
fn decode_round_trips_composite() {
    let abi = Abi {
        parameters: vec![AbiField { name: "p".to_string(), typ: composite_type() }],
        return_type: None,
    };
    let inputs = vec![("p".to_string(), composite_value())];
    let w = encode_inputs(&abi, &inputs).unwrap();
    assert_eq!(w.len(), 3);
    let decoded = decode_value(&composite_type(), &w);
    assert!(same_value(&decoded, &composite_value()));
}

#[test]
fn encode_empty_abi_accepts_empty_mapping() {
    let abi = Abi { parameters: vec![], return_type: None };
    let w = encode_inputs(&abi, &vec![]).unwrap();
    assert!(w.is_empty());
}

#[test]
fn encode_duplicate_names_take_first_entry() {
    let abi = Abi { parameters: vec![field("x")], return_type: None };
    let inputs = vec![
        ("x".to_string(), InputValue::Scalar(sb(7))),
        ("x".to_string(), InputValue::Scalar(sb(9))),
    ];
    let w = encode_inputs(&abi, &inputs).unwrap();
    assert_eq!(w, vec![sb(7)]);
}

#[test]
fn zero_length_array_round_trips() {
    let typ = AbiType::Array { length: 0, element: Box::new(AbiType::Field) };
    let abi = Abi {
        parameters: vec![AbiField { name: "a".to_string(), typ }],
        return_type: None,
    };
    let inputs = vec![("a".to_string(), InputValue::Sequence(vec![]))];
    let w = encode_inputs(&abi, &inputs).unwrap();
    assert!(w.is_empty());
    let decoded = decode_value(&AbiType::Array { length: 0, element: Box::new(AbiType::Field) }, &w);
    assert!(same_value(&decoded, &InputValue::Sequence(vec![])));
}

#[test]
fn select_no_library_package_fails() {
    let packages = vec![
        PackageInfo { name: "cli".to_string(), is_library: false },
        PackageInfo { name: "bin".to_string(), is_library: false },
    ];
    let e = select_library(&packages).unwrap_err();
    assert!(matches!(e, Error::ResolutionError(_)));
    assert_eq!(e.message(), "no lib pkg");
}

#[test]
fn select_library_picks_the_unique_library() {
    let packages = vec![
        PackageInfo { name: "cli".to_string(), is_library: false },
        PackageInfo { name: "core".to_string(), is_library: true },
    ];
    assert_eq!(select_library(&packages).unwrap(), 1);
}

#[test]
fn select_library_rejects_a_second_library() {
    let packages = vec![
        PackageInfo { name: "core".to_string(), is_library: true },
        PackageInfo { name: "extra".to_string(), is_library: true },
    ];
    let e = select_library(&packages).unwrap_err();
    assert!(matches!(e, Error::ResolutionError(_)));
    assert_eq!(e.message(), "more than one lib pkg");
}

#[test]
fn select_function_absent_is_function_not_found() {
    let names = vec!["foo".to_string(), "bar".to_string()];
    let e = select_function(&names, &"baz".to_string()).unwrap_err();
    assert!(matches!(e, Error::FunctionNotFound(_)));
    assert_eq!(e.message(), "no fn_name");
    assert_eq!(select_function(&names, &"bar".to_string()).unwrap(), 1);
}

#[test]
fn collect_programs_keeps_names_and_order() {
    let results = vec![
        ("a".to_string(), Ok::<u32, String>(10)),
        ("b".to_string(), Ok::<u32, String>(20)),
    ];
    let out = collect_programs(results).unwrap();
    assert_eq!(out.len(), 2);
    assert_eq!(out[0], ("a".to_string(), 10));
    assert_eq!(out[1], ("b".to_string(), 20));
}

#[test]
fn collect_programs_reports_first_failure() {
    let results = vec![
        ("a".to_string(), Ok::<u32, String>(10)),
        ("b".to_string(), Err::<u32, String>("type error".to_string())),
        ("c".to_string(), Ok::<u32, String>(30)),
    ];
    let e = collect_programs(results).unwrap_err();
    assert!(matches!(e, Error::CompileError(_)));
    assert_eq!(e.message(), "type error");
}

#[test]
fn error_messages_are_forwarded_unchanged() {
    assert_eq!(Error::ManifestNotFound("m".to_string()).message(), "m");
    assert_eq!(Error::SolveError("constraint failed".to_string()).message(), "constraint failed");
    assert_eq!(Error::DecodeError("d".to_string()).message(), "d");
    assert_eq!(debug_string(42u32), "42");
}
