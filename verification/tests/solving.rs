use std::collections::BTreeSet;

use acvm::acir::circuit::{Circuit, ExpressionWidth, Opcode, Program, PublicInputs};
use acvm::acir::native_types::{Expression, Witness};
use acvm::FieldElement;
use noir_harness::abi::{Abi, AbiField, AbiType, InputValue};
use noir_harness::errors::Error;
use noir_harness::harness::run_compiled;

fn sb(n: u8) -> [u8; 32] {
    let mut a = [0u8; 32];
    a[31] = n;
    a
}

fn fe_bytes(f: FieldElement) -> [u8; 32] {
    let v = f.to_be_bytes();
    let mut a = [0u8; 32];
    a.copy_from_slice(&v);
    a
}

fn field(name: &str) -> AbiField {
    AbiField { name: name.to_string(), typ: AbiType::Field }
}

fn program(opcodes: Vec<Opcode>, witness_count: u32) -> Program {
    Program {
        functions: vec![Circuit {
            current_witness_index: witness_count,
            opcodes,
            expression_width: ExpressionWidth::Unbounded,
            private_parameters: BTreeSet::new(),
            public_parameters: PublicInputs(BTreeSet::new()),
            return_values: PublicInputs(BTreeSet::new()),
            assert_messages: Vec::new(),
            recursive: false,
        }],
        unconstrained_functions: Vec::new(),
    }
}

/// An opcode constraining `out` to be the product of `a` and `b`.
fn mul_opcode(a: u32, b: u32, out: u32) -> Opcode {
    Opcode::AssertZero(Expression {
        mul_terms: vec![(FieldElement::one(), Witness(a), Witness(b))],
        linear_combinations: vec![(-FieldElement::one(), Witness(out))],
        q_c: FieldElement::zero(),
    })
}

/// An opcode constraining witnesses `a` and `b` to be equal.
fn eq_opcode(a: u32, b: u32) -> Opcode {
    Opcode::AssertZero(Expression {
        mul_terms: vec![],
        linear_combinations: vec![
            (FieldElement::one(), Witness(a)),
            (-FieldElement::one(), Witness(b)),
        ],
        q_c: FieldElement::zero(),
    })
}

fn xy_inputs(x: u8, y: u8) -> Vec<(String, InputValue)> {
    vec![
        ("x".to_string(), InputValue::Scalar(sb(x))),
        ("y".to_string(), InputValue::Scalar(sb(y))),
    ]
}

#[test]
fn multiplication_identity() {
    let program = program(vec![mul_opcode(0, 1, 2)], 3);
    let abi = Abi { parameters: vec![field("x"), field("y")], return_type: Some(AbiType::Field) };
    let result = run_compiled(&program, &abi, &xy_inputs(2, 3)).unwrap();
    let expected = fe_bytes(FieldElement::from(2i128) * FieldElement::from(3i128));
    match result {
        Some(InputValue::Scalar(got)) => assert_eq!(got, expected),
        other => panic!("expected a scalar result, got {other:?}"),
    }
}

#[test]
fn identical_calls_give_identical_output() {
    let abi = Abi { parameters: vec![field("x"), field("y")], return_type: Some(AbiType::Field) };
    let first = {
        let p = program(vec![mul_opcode(0, 1, 2)], 3);
        run_compiled(&p, &abi, &xy_inputs(7, 9)).unwrap()
    };
    let second = {
        let p = program(vec![mul_opcode(0, 1, 2)], 3);
        run_compiled(&p, &abi, &xy_inputs(7, 9)).unwrap()
    };
    match (first, second) {
        (Some(InputValue::Scalar(a)), Some(InputValue::Scalar(b))) => assert_eq!(a, b),
        other => panic!("expected scalar results, got {other:?}"),
    }
}

#[test]
fn composite_return_keeps_order_and_arity() {
    let program = program(vec![eq_opcode(2, 0), eq_opcode(3, 1)], 4);
    let abi = Abi {
        parameters: vec![field("x"), field("y")],
        return_type: Some(AbiType::Array { length: 2, element: Box::new(AbiType::Field) }),
    };
    let result = run_compiled(&program, &abi, &xy_inputs(5, 8)).unwrap();
    match result {
        Some(InputValue::Sequence(items)) => {
            assert_eq!(items.len(), 2);
            match (&items[0], &items[1]) {
                (InputValue::Scalar(a), InputValue::Scalar(b)) => {
                    assert_eq!(*a, fe_bytes(FieldElement::from(5i128)));
                    assert_eq!(*b, fe_bytes(FieldElement::from(8i128)));
                }
                other => panic!("expected scalar elements, got {other:?}"),
            }
        }
        other => panic!("expected a sequence result, got {other:?}"),
    }
}

#[test]
fn unsatisfiable_constraint_is_solve_error() {
    let program = program(vec![eq_opcode(0, 1)], 2);
    let abi = Abi { parameters: vec![field("x"), field("y")], return_type: None };
    let e = run_compiled(&program, &abi, &xy_inputs(2, 3)).unwrap_err();
    assert!(matches!(e, Error::SolveError(_)));
}

#[test]
fn missing_return_slot_is_decode_error() {
    let program = program(vec![], 2);
    let abi = Abi { parameters: vec![field("x"), field("y")], return_type: Some(AbiType::Field) };
    let e = run_compiled(&program, &abi, &xy_inputs(2, 3)).unwrap_err();
    assert!(matches!(e, Error::DecodeError(_)));
    assert_eq!(e.message(), "missing witness value");
}

#[test]
fn missing_input_never_reaches_solving() {
    let program = program(vec![mul_opcode(0, 1, 2)], 3);
    let abi = Abi { parameters: vec![field("x"), field("y")], return_type: Some(AbiType::Field) };
    let inputs = vec![("x".to_string(), InputValue::Scalar(sb(2)))];
    let e = run_compiled(&program, &abi, &inputs).unwrap_err();
    assert!(matches!(e, Error::EncodeError(_)));
    assert_eq!(e.message(), "y");
}
