//! Error taxonomy: each error variant arises from the input that the
//! design names for it, and soft failures stay errors-free.

use rvm::errors::VmError;
use rvm::number::Number;
use rvm::ops::add_values;
use rvm::program::{
    ArrayCreateParams, Instruction, InstructionData, ObjectCreateParams, Program,
    LiteralOrRegister,
};
use rvm::value::Value;
use rvm::vm::{NoBuiltins, RegoVM};

fn num(n: i64) -> Value {
    Value::from_i64(n)
}

fn text(s: &str) -> Value {
    Value::Text(s.to_string())
}

fn obj(pairs: Vec<(Value, Value)>) -> Value {
    let mut o = Value::new_object();
    for (k, v) in pairs {
        o = rvm::containers::obj_inserted(o, k, v).unwrap();
    }
    o
}

fn bare_program(instructions: Vec<Instruction>, literals: Vec<Value>) -> Program {
    Program {
        instructions,
        literals,
        rule_infos: Vec::new(),
        instruction_data: InstructionData::new_empty(),
        rule_tree: Value::new_object(),
        entry_points: Vec::new(),
        builtin_info_table: Vec::new(),
        main_entry_point: 0,
        dispatch_window_size: 8,
    }
}

fn run(p: Program) -> Result<Value, VmError> {
    let mut vm = RegoVM::new();
    vm.load_program(p);
    vm.execute(&mut NoBuiltins::new())
}

#[test]
fn literal_index_out_of_bounds() {
    let p = bare_program(
        vec![Instruction::Load { dest: 0, literal_idx: 7 }, Instruction::Halt {}],
        vec![],
    );
    assert!(matches!(run(p), Err(VmError::LiteralIndexOutOfBounds { index: 7 })));
}

#[test]
fn register_not_object_array_or_set() {
    let p = bare_program(
        vec![
            Instruction::Load { dest: 1, literal_idx: 0 },
            Instruction::ObjectSet { obj: 1, key: 1, value: 1 },
            Instruction::Halt {},
        ],
        vec![num(1)],
    );
    assert!(matches!(run(p), Err(VmError::RegisterNotObject { register: 1 })));

    let p2 = bare_program(
        vec![
            Instruction::Load { dest: 1, literal_idx: 0 },
            Instruction::ArrayPush { arr: 1, value: 1 },
            Instruction::Halt {},
        ],
        vec![num(1)],
    );
    assert!(matches!(run(p2), Err(VmError::RegisterNotArray { register: 1 })));

    let p3 = bare_program(
        vec![
            Instruction::Load { dest: 1, literal_idx: 0 },
            Instruction::SetAdd { dst: 1, value: 1 },
            Instruction::Halt {},
        ],
        vec![num(1)],
    );
    assert!(matches!(run(p3), Err(VmError::RegisterNotSet { register: 1 })));
}

#[test]
fn rule_index_out_of_bounds() {
    let p = bare_program(
        vec![Instruction::CallRule { dest: 0, rule_index: 3 }, Instruction::Halt {}],
        vec![],
    );
    assert!(matches!(run(p), Err(VmError::RuleIndexOutOfBounds { index: 3 })));
}

#[test]
fn assertion_failure_outside_a_rule_surfaces() {
    let p = bare_program(
        vec![
            Instruction::LoadFalse { dest: 1 },
            Instruction::AssertCondition { condition: 1 },
            Instruction::Halt {},
        ],
        vec![],
    );
    assert!(matches!(run(p), Err(VmError::AssertionFailed)));
}

#[test]
fn missing_parameter_blocks_are_reported() {
    let p = bare_program(
        vec![Instruction::ChainedIndex { params_index: 0 }, Instruction::Halt {}],
        vec![],
    );
    assert!(matches!(
        run(p),
        Err(VmError::InvalidChainedIndexParams { index: 0 })
    ));

    let p2 = bare_program(
        vec![Instruction::ArrayCreate { params_index: 2 }, Instruction::Halt {}],
        vec![],
    );
    assert!(matches!(
        run(p2),
        Err(VmError::InvalidArrayCreateParams { index: 2 })
    ));

    let p3 = bare_program(
        vec![Instruction::SetCreate { params_index: 0 }, Instruction::Halt {}],
        vec![],
    );
    assert!(matches!(run(p3), Err(VmError::InvalidSetCreateParams { index: 0 })));

    let p4 = bare_program(
        vec![Instruction::ObjectCreate { params_index: 1 }, Instruction::Halt {}],
        vec![],
    );
    assert!(matches!(
        run(p4),
        Err(VmError::InvalidObjectCreateParams { index: 1 })
    ));

    let p5 = bare_program(
        vec![
            Instruction::VirtualDataDocumentLookup { params_index: 0 },
            Instruction::Halt {},
        ],
        vec![],
    );
    assert!(matches!(
        run(p5),
        Err(VmError::InvalidVirtualDataDocumentLookupParams { index: 0 })
    ));

    let p6 = bare_program(
        vec![
            Instruction::ComprehensionBegin { params_index: 0 },
            Instruction::Halt {},
        ],
        vec![],
    );
    assert!(matches!(
        run(p6),
        Err(VmError::InvalidComprehensionBeginParams { index: 0 })
    ));
}

#[test]
fn object_create_template_errors() {
    // The template literal index is validated, then the template's kind.
    let mut p = bare_program(
        vec![Instruction::ObjectCreate { params_index: 0 }, Instruction::Halt {}],
        vec![num(1)],
    );
    p.instruction_data.object_create_params = vec![ObjectCreateParams {
        dest: 0,
        template_literal_idx: 9,
        literal_key_field_pairs: vec![],
        field_pairs: vec![],
    }];
    assert!(matches!(
        run(p),
        Err(VmError::InvalidTemplateLiteralIndex { index: 9 })
    ));

    let mut p2 = bare_program(
        vec![Instruction::ObjectCreate { params_index: 0 }, Instruction::Halt {}],
        vec![num(1)],
    );
    p2.instruction_data.object_create_params = vec![ObjectCreateParams {
        dest: 0,
        template_literal_idx: 0,
        literal_key_field_pairs: vec![],
        field_pairs: vec![],
    }];
    assert!(matches!(run(p2), Err(VmError::ObjectCreateInvalidTemplate)));
}

#[test]
fn create_instructions_propagate_undefined() {
    // An undefined element register makes the created array undefined,
    // not an error.
    let mut p = bare_program(
        vec![
            Instruction::LoadInput { dest: 1 },
            Instruction::IndexLiteral { dest: 2, container: 1, literal_idx: 0 },
            Instruction::ArrayCreate { params_index: 0 },
            Instruction::Halt {},
        ],
        vec![text("absent")],
    );
    p.instruction_data.array_create_params = vec![ArrayCreateParams {
        dest: 0,
        element_registers: vec![2],
    }];
    let mut vm = RegoVM::new();
    vm.load_program(p);
    vm.set_input(obj(vec![]));
    let out = vm.execute(&mut NoBuiltins::new()).unwrap();
    assert!(matches!(out, Value::Undefined));
}

#[test]
fn invalid_rule_tree_entries_are_reported() {
    // A rule-tree leaf that is neither a number nor an object.
    let mut p = bare_program(
        vec![
            Instruction::VirtualDataDocumentLookup { params_index: 0 },
            Instruction::Halt {},
        ],
        vec![text("p")],
    );
    p.instruction_data.virtual_data_document_lookup_params =
        vec![rvm::program::VirtualDataDocumentLookupParams {
            dest: 0,
            path_components: vec![LiteralOrRegister::Literal(0)],
        }];
    p.rule_tree = obj(vec![(text("data"), obj(vec![(text("p"), text("bad"))]))]);
    assert!(matches!(run(p), Err(VmError::InvalidRuleTreeEntry { .. })));
}

#[test]
fn non_integer_rule_indices_are_reported() {
    let mut p = bare_program(
        vec![
            Instruction::VirtualDataDocumentLookup { params_index: 0 },
            Instruction::Halt {},
        ],
        vec![text("p")],
    );
    p.instruction_data.virtual_data_document_lookup_params =
        vec![rvm::program::VirtualDataDocumentLookupParams {
            dest: 0,
            path_components: vec![LiteralOrRegister::Literal(0)],
        }];
    p.rule_tree = obj(vec![(
        text("data"),
        obj(vec![(text("p"), Value::Num(Number { num: 1, den: 2 }))]),
    )]);
    assert!(matches!(run(p), Err(VmError::InvalidRuleIndex { .. })));
}

#[test]
fn out_of_range_registers_are_internal_errors() {
    let p = bare_program(
        vec![Instruction::LoadNull { dest: 200 }, Instruction::Halt {}],
        vec![],
    );
    assert!(matches!(run(p), Err(VmError::Internal(_))));
}

#[test]
fn arithmetic_overflow_is_an_arithmetic_error() {
    let big = Value::Num(Number { num: i64::MAX, den: 1 });
    let r = add_values(&big, &num(1));
    assert!(matches!(r, Err(VmError::ArithmeticError(_))));
}

#[test]
fn program_validation_rejects_malformed_values() {
    // A zero denominator is not a well-formed number; a host can reject
    // such a program before loading it.
    let good = bare_program(vec![Instruction::Halt {}], vec![num(1)]);
    assert!(good.validate());
    let bad = bare_program(
        vec![Instruction::Halt {}],
        vec![Value::Num(Number { num: 1, den: 0 })],
    );
    assert!(!bad.validate());
    let mut tree_bad = bare_program(vec![Instruction::Halt {}], vec![]);
    tree_bad.rule_tree = Value::Num(Number { num: 1, den: 0 });
    assert!(!tree_bad.validate());
}

