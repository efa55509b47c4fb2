//! End-to-end scenarios: small programs run on the virtual machine.

use rvm::containers::obj_inserted;
use rvm::program::{
    BuiltinCallParams, BuiltinInfo, ComprehensionBeginParams, Instruction, InstructionData,
    LoopMode, LoopStartParams, Program, RuleInfo, RuleType, VirtualDataDocumentLookupParams,
    LiteralOrRegister,
};
use rvm::value::{value_eq, Value};
use rvm::vm::{NoBuiltins, RegoVM};
use rvm::errors::VmError;

fn num(n: i64) -> Value {
    Value::from_i64(n)
}

fn text(s: &str) -> Value {
    Value::Text(s.to_string())
}

fn obj(pairs: Vec<(Value, Value)>) -> Value {
    let mut o = Value::new_object();
    for (k, v) in pairs {
        o = obj_inserted(o, k, v).unwrap();
    }
    o
}

fn arr(items: Vec<Value>) -> Value {
    Value::Arr(items)
}

fn set_of(items: Vec<Value>) -> Value {
    let mut s = Value::new_set();
    for v in items {
        s = rvm::containers::set_added(s, v).unwrap();
    }
    s
}

fn bare_program(instructions: Vec<Instruction>, literals: Vec<Value>) -> Program {
    Program {
        instructions,
        literals,
        rule_infos: Vec::new(),
        instruction_data: InstructionData::new_empty(),
        rule_tree: Value::new_object(),
        entry_points: Vec::new(),
        builtin_info_table: Vec::new(),
        main_entry_point: 0,
        dispatch_window_size: 8,
    }
}

fn complete_rule(bodies: Vec<u32>, default_literal_index: Option<u16>) -> RuleInfo {
    RuleInfo {
        name: "rule".to_string(),
        result_reg: 0,
        num_registers: 8,
        definitions: vec![bodies],
        destructuring_blocks: vec![None],
        rule_type: RuleType::Complete,
        default_literal_index,
        function_info: None,
    }
}

#[test]
fn echo_input() {
    // LoadInput r0; Halt — with input {"a": 1} the result is {"a": 1}.
    let program = bare_program(
        vec![Instruction::LoadInput { dest: 0 }, Instruction::Halt {}],
        vec![],
    );
    let mut vm = RegoVM::new();
    vm.load_program(program);
    let input = obj(vec![(text("a"), num(1))]);
    vm.set_input(input);
    let out = vm.execute(&mut NoBuiltins::new()).unwrap();
    assert!(value_eq(&out, &obj(vec![(text("a"), num(1))])));
}

fn arithmetic_rule_program() -> Program {
    // rule: r0 = input.x + 1, then returned; an absent input.x fails the body.
    let mut p = bare_program(
        vec![
            Instruction::CallRule { dest: 0, rule_index: 0 },
            Instruction::Halt {},
            // rule body
            Instruction::LoadInput { dest: 1 },
            Instruction::IndexLiteral { dest: 2, container: 1, literal_idx: 0 },
            Instruction::Load { dest: 3, literal_idx: 1 },
            Instruction::Add { dest: 0, left: 2, right: 3 },
            Instruction::RuleReturn {},
        ],
        vec![text("x"), num(1)],
    );
    p.rule_infos = vec![complete_rule(vec![2], None)];
    p
}

#[test]
fn arithmetic_with_undefined_input() {
    // With input {}, input.x is Undefined: the addition fails the body and
    // the complete rule without a default yields Undefined.
    let mut vm = RegoVM::new();
    vm.load_program(arithmetic_rule_program());
    vm.set_input(obj(vec![]));
    let out = vm.execute(&mut NoBuiltins::new()).unwrap();
    assert!(matches!(out, Value::Undefined));
}

#[test]
fn arithmetic_with_defined_input() {
    let mut vm = RegoVM::new();
    vm.load_program(arithmetic_rule_program());
    vm.set_input(obj(vec![(text("x"), num(41))]));
    let out = vm.execute(&mut NoBuiltins::new()).unwrap();
    assert!(value_eq(&out, &num(42)));
}

fn partial_set_program() -> Program {
    // s contains x if x := input.items[_]
    let mut p = bare_program(
        vec![
            Instruction::CallRule { dest: 0, rule_index: 0 },
            Instruction::Halt {},
            // rule body
            Instruction::RuleInit { result_reg: 0, rule_index: 0 },
            Instruction::LoadInput { dest: 1 },
            Instruction::IndexLiteral { dest: 2, container: 1, literal_idx: 0 },
            Instruction::LoopStart { params_index: 0 },
            Instruction::SetAdd { dst: 0, value: 4 },
            Instruction::LoopNext { body_start: 6, loop_end: 8 },
            Instruction::RuleReturn {},
        ],
        vec![text("items")],
    );
    p.instruction_data.loop_params = vec![LoopStartParams {
        mode: LoopMode::ForEach,
        collection: 2,
        key_reg: 3,
        value_reg: 4,
        result_reg: 5,
        body_start: 6,
        loop_end: 8,
    }];
    p.rule_infos = vec![RuleInfo {
        name: "s".to_string(),
        result_reg: 0,
        num_registers: 8,
        definitions: vec![vec![2]],
        destructuring_blocks: vec![None],
        rule_type: RuleType::PartialSet,
        default_literal_index: None,
        function_info: None,
    }];
    p
}

#[test]
fn partial_set_deduplicates_and_orders() {
    // input {"items": [2, 2, 3]} accumulates into the set {2, 3}.
    let mut vm = RegoVM::new();
    vm.load_program(partial_set_program());
    vm.set_input(obj(vec![(text("items"), arr(vec![num(2), num(2), num(3)]))]));
    let out = vm.execute(&mut NoBuiltins::new()).unwrap();
    assert!(value_eq(&out, &set_of(vec![num(2), num(3)])));
}

#[test]
fn partial_set_with_no_items_is_empty_set() {
    // All bodies fail to add anything; the partial set falls back to {}.
    let mut vm = RegoVM::new();
    vm.load_program(partial_set_program());
    vm.set_input(obj(vec![(text("items"), arr(vec![]))]));
    let out = vm.execute(&mut NoBuiltins::new()).unwrap();
    assert!(value_eq(&out, &Value::new_set()));
}

#[test]
fn execute_twice_gives_equal_results() {
    // Determinism and reset: a second execution sees no residue of the
    // first and yields an equal value.
    let mut vm = RegoVM::new();
    vm.load_program(partial_set_program());
    vm.set_input(obj(vec![(text("items"), arr(vec![num(2), num(2), num(3)]))]));
    let first = vm.execute(&mut NoBuiltins::new()).unwrap();
    let second = vm.execute(&mut NoBuiltins::new()).unwrap();
    assert!(value_eq(&first, &second));
    assert!(value_eq(&second, &set_of(vec![num(2), num(3)])));
}

fn every_program() -> Program {
    // r { every x in input.xs { x > 0 } }
    let mut p = bare_program(
        vec![
            Instruction::CallRule { dest: 0, rule_index: 0 },
            Instruction::Halt {},
            // rule body
            Instruction::RuleInit { result_reg: 0, rule_index: 0 },
            Instruction::LoadInput { dest: 1 },
            Instruction::IndexLiteral { dest: 2, container: 1, literal_idx: 0 },
            Instruction::LoopStart { params_index: 0 },
            Instruction::Load { dest: 6, literal_idx: 1 },
            Instruction::Gt { dest: 7, left: 4, right: 6 },
            Instruction::AssertCondition { condition: 7 },
            Instruction::LoopNext { body_start: 6, loop_end: 10 },
            Instruction::Move { dest: 0, src: 5 },
            Instruction::RuleReturn {},
        ],
        vec![text("xs"), num(0)],
    );
    p.instruction_data.loop_params = vec![LoopStartParams {
        mode: LoopMode::Every,
        collection: 2,
        key_reg: 3,
        value_reg: 4,
        result_reg: 5,
        body_start: 6,
        loop_end: 10,
    }];
    p.rule_infos = vec![complete_rule(vec![2], None)];
    p
}

#[test]
fn every_over_empty_collection_is_true() {
    let mut vm = RegoVM::new();
    vm.load_program(every_program());
    vm.set_input(obj(vec![(text("xs"), arr(vec![]))]));
    let out = vm.execute(&mut NoBuiltins::new()).unwrap();
    assert!(value_eq(&out, &Value::Bool(true)));
}

#[test]
fn every_with_failing_element_is_false() {
    let mut vm = RegoVM::new();
    vm.load_program(every_program());
    vm.set_input(obj(vec![(text("xs"), arr(vec![num(1), num(0)]))]));
    let out = vm.execute(&mut NoBuiltins::new()).unwrap();
    assert!(value_eq(&out, &Value::Bool(false)));
}

#[test]
fn every_with_all_passing_is_true() {
    let mut vm = RegoVM::new();
    vm.load_program(every_program());
    vm.set_input(obj(vec![(text("xs"), arr(vec![num(1), num(2)]))]));
    let out = vm.execute(&mut NoBuiltins::new()).unwrap();
    assert!(value_eq(&out, &Value::Bool(true)));
}

#[test]
fn virtual_lookup_materialises_subobject() {
    // Rule tree {data: {p: {a: rule 0, b: rule 1}}}; rule 0 returns 1,
    // rule 1 fails. Looking data.p up with data {p: {c: 3}} yields
    // {"a": 1, "c": 3} and no "b" key.
    let mut p = bare_program(
        vec![
            Instruction::VirtualDataDocumentLookup { params_index: 0 },
            Instruction::Halt {},
            // rule 0: returns 1
            Instruction::Load { dest: 0, literal_idx: 1 },
            Instruction::RuleReturn {},
            // rule 1: always fails
            Instruction::LoadFalse { dest: 1 },
            Instruction::AssertCondition { condition: 1 },
            Instruction::RuleReturn {},
        ],
        vec![text("p"), num(1)],
    );
    p.instruction_data.virtual_data_document_lookup_params =
        vec![VirtualDataDocumentLookupParams {
            dest: 0,
            path_components: vec![LiteralOrRegister::Literal(0)],
        }];
    p.rule_infos = vec![complete_rule(vec![2], None), complete_rule(vec![4], None)];
    p.rule_tree = obj(vec![(
        text("data"),
        obj(vec![(
            text("p"),
            obj(vec![(text("a"), num(0)), (text("b"), num(1))]),
        )]),
    )]);
    let mut vm = RegoVM::new();
    vm.load_program(p);
    vm.set_data(obj(vec![(text("p"), obj(vec![(text("c"), num(3))]))]))
        .unwrap();
    let out = vm.execute(&mut NoBuiltins::new()).unwrap();
    assert!(value_eq(
        &out,
        &obj(vec![(text("a"), num(1)), (text("c"), num(3))])
    ));
}

fn default_rule_program() -> Program {
    // default allow := false; allow { input.role == "admin" }
    let mut p = bare_program(
        vec![
            Instruction::CallRule { dest: 0, rule_index: 0 },
            Instruction::Halt {},
            // rule body
            Instruction::LoadInput { dest: 1 },
            Instruction::IndexLiteral { dest: 2, container: 1, literal_idx: 0 },
            Instruction::Load { dest: 3, literal_idx: 1 },
            Instruction::Eq { dest: 4, left: 2, right: 3 },
            Instruction::AssertCondition { condition: 4 },
            Instruction::LoadTrue { dest: 0 },
            Instruction::RuleReturn {},
        ],
        vec![text("role"), text("admin"), Value::Bool(false)],
    );
    p.rule_infos = vec![complete_rule(vec![2], Some(2))];
    p
}

#[test]
fn default_rule_guest_gets_false() {
    let mut vm = RegoVM::new();
    vm.load_program(default_rule_program());
    vm.set_input(obj(vec![(text("role"), text("guest"))]));
    let out = vm.execute(&mut NoBuiltins::new()).unwrap();
    assert!(value_eq(&out, &Value::Bool(false)));
}

#[test]
fn default_rule_admin_gets_true() {
    let mut vm = RegoVM::new();
    vm.load_program(default_rule_program());
    vm.set_input(obj(vec![(text("role"), text("admin"))]));
    let out = vm.execute(&mut NoBuiltins::new()).unwrap();
    assert!(value_eq(&out, &Value::Bool(true)));
}

#[test]
fn instruction_budget_is_enforced() {
    // A program that needs more steps than the limit stops with
    // InstructionLimitExceeded carrying that limit.
    let program = bare_program(
        vec![
            Instruction::LoadNull { dest: 0 },
            Instruction::LoadNull { dest: 1 },
            Instruction::LoadNull { dest: 2 },
            Instruction::LoadNull { dest: 3 },
            Instruction::Halt {},
        ],
        vec![],
    );
    let mut vm = RegoVM::new();
    vm.load_program(program);
    vm.set_max_instructions(3);
    let out = vm.execute(&mut NoBuiltins::new());
    assert!(matches!(out, Err(VmError::InstructionLimitExceeded { limit: 3 })));
}

#[test]
fn entry_points_by_index_and_name() {
    let mut p = bare_program(
        vec![
            Instruction::LoadTrue { dest: 0 },
            Instruction::Halt {},
            Instruction::LoadFalse { dest: 0 },
            Instruction::Halt {},
        ],
        vec![],
    );
    p.entry_points = vec![("yes".to_string(), 0), ("no".to_string(), 2)];
    let mut vm = RegoVM::new();
    vm.load_program(p);
    assert_eq!(vm.get_entry_point_count(), 2);
    let names = vm.get_entry_point_names();
    assert_eq!(names[0], "yes");
    assert_eq!(names[1], "no");
    let yes = vm.execute_entry_point_by_index(&mut NoBuiltins::new(), 0).unwrap();
    assert!(value_eq(&yes, &Value::Bool(true)));
    let no = vm.execute_entry_point_by_name(&mut NoBuiltins::new(), "no").unwrap();
    assert!(value_eq(&no, &Value::Bool(false)));
    let missing = vm.execute_entry_point_by_name(&mut NoBuiltins::new(), "absent");
    match missing {
        Err(VmError::EntryPointNotFound { name, available }) => {
            assert_eq!(name, "absent");
            assert_eq!(available.len(), 2);
        },
        _ => panic!("expected an entry-point error"),
    }
    let oob = vm.execute_entry_point_by_index(&mut NoBuiltins::new(), 5);
    assert!(matches!(
        oob,
        Err(VmError::InvalidEntryPointIndex { index: 5, max_index: 1 })
    ));
}

#[test]
fn builtin_calls_validate_arity_then_report_unresolved() {
    let mut p = bare_program(
        vec![Instruction::BuiltinCall { params_index: 0 }, Instruction::Halt {}],
        vec![],
    );
    p.builtin_info_table = vec![BuiltinInfo { name: "count".to_string(), num_args: 1 }];
    p.instruction_data.builtin_call_params = vec![BuiltinCallParams {
        dest: 0,
        builtin_index: 0,
        arg_registers: vec![1, 2],
    }];
    let mut vm = RegoVM::new();
    vm.load_program(p);
    let out = vm.execute(&mut NoBuiltins::new());
    assert!(matches!(
        out,
        Err(VmError::BuiltinArgumentMismatch { expected: 1, actual: 2 })
    ));

    let mut p2 = bare_program(
        vec![Instruction::BuiltinCall { params_index: 0 }, Instruction::Halt {}],
        vec![],
    );
    p2.builtin_info_table = vec![BuiltinInfo { name: "count".to_string(), num_args: 1 }];
    p2.instruction_data.builtin_call_params = vec![BuiltinCallParams {
        dest: 0,
        builtin_index: 0,
        arg_registers: vec![1],
    }];
    let mut vm2 = RegoVM::new();
    vm2.load_program(p2);
    let out2 = vm2.execute(&mut NoBuiltins::new());
    match out2 {
        Err(VmError::BuiltinNotResolved { name }) => assert_eq!(name, "count"),
        _ => panic!("expected an unresolved-builtin error"),
    }
}

#[test]
fn comprehension_collects_array() {
    // An array comprehension over input.items collecting each element.
    let mut p = bare_program(
        vec![
            Instruction::LoadInput { dest: 1 },
            Instruction::IndexLiteral { dest: 2, container: 1, literal_idx: 0 },
            Instruction::ComprehensionBegin { params_index: 0 },
            Instruction::LoopStart { params_index: 0 },
            Instruction::ComprehensionYield { value_reg: 4, key_reg: None },
            Instruction::LoopNext { body_start: 4, loop_end: 6 },
            Instruction::ComprehensionEnd {},
            Instruction::Move { dest: 0, src: 6 },
            Instruction::Halt {},
        ],
        vec![text("items")],
    );
    p.instruction_data.comprehension_begin_params = vec![ComprehensionBeginParams {
        mode: rvm::program::ComprehensionMode::Array,
        collection_reg: 6,
        comprehension_end: 6,
    }];
    p.instruction_data.loop_params = vec![LoopStartParams {
        mode: LoopMode::ForEach,
        collection: 2,
        key_reg: 3,
        value_reg: 4,
        result_reg: 5,
        body_start: 4,
        loop_end: 6,
    }];
    let mut vm = RegoVM::new();
    vm.load_program(p);
    vm.set_input(obj(vec![(text("items"), arr(vec![num(3), num(1), num(3)]))]));
    let out = vm.execute(&mut NoBuiltins::new()).unwrap();
    assert!(value_eq(&out, &arr(vec![num(3), num(1), num(3)])));
}

#[test]
fn rule_consistency_two_definitions() {
    // A complete rule with two definitions returning 1 and 2 is
    // inconsistent and yields Undefined; two definitions returning the
    // same value yield that value.
    let mut p = bare_program(
        vec![
            Instruction::CallRule { dest: 0, rule_index: 0 },
            Instruction::Halt {},
            Instruction::Load { dest: 0, literal_idx: 0 },
            Instruction::RuleReturn {},
            Instruction::Load { dest: 0, literal_idx: 1 },
            Instruction::RuleReturn {},
        ],
        vec![num(1), num(2)],
    );
    p.rule_infos = vec![RuleInfo {
        name: "r".to_string(),
        result_reg: 0,
        num_registers: 4,
        definitions: vec![vec![2], vec![4]],
        destructuring_blocks: vec![None, None],
        rule_type: RuleType::Complete,
        default_literal_index: None,
        function_info: None,
    }];
    let mut vm = RegoVM::new();
    vm.load_program(p);
    let out = vm.execute(&mut NoBuiltins::new()).unwrap();
    assert!(matches!(out, Value::Undefined));

    let mut p2 = bare_program(
        vec![
            Instruction::CallRule { dest: 0, rule_index: 0 },
            Instruction::Halt {},
            Instruction::Load { dest: 0, literal_idx: 0 },
            Instruction::RuleReturn {},
            Instruction::Load { dest: 0, literal_idx: 0 },
            Instruction::RuleReturn {},
        ],
        vec![num(1)],
    );
    p2.rule_infos = vec![RuleInfo {
        name: "r".to_string(),
        result_reg: 0,
        num_registers: 4,
        definitions: vec![vec![2], vec![4]],
        destructuring_blocks: vec![None, None],
        rule_type: RuleType::Complete,
        default_literal_index: None,
        function_info: None,
    }];
    let mut vm2 = RegoVM::new();
    vm2.load_program(p2);
    let out2 = vm2.execute(&mut NoBuiltins::new()).unwrap();
    assert!(value_eq(&out2, &num(1)));
}

#[test]
fn rule_memoisation_serves_cached_result() {
    // Calling the same non-function rule twice runs its body once: the
    // second call is served from the cache. The body pushes onto a set
    // held in data; a re-run would not change the result, so equality of
    // both destination registers shows the cached value was reused.
    let mut p = bare_program(
        vec![
            Instruction::CallRule { dest: 0, rule_index: 0 },
            Instruction::CallRule { dest: 1, rule_index: 0 },
            Instruction::Eq { dest: 0, left: 0, right: 1 },
            Instruction::Halt {},
            Instruction::Load { dest: 0, literal_idx: 0 },
            Instruction::RuleReturn {},
        ],
        vec![num(7)],
    );
    p.rule_infos = vec![complete_rule(vec![4], None)];
    let mut vm = RegoVM::new();
    vm.load_program(p);
    let out = vm.execute(&mut NoBuiltins::new()).unwrap();
    assert!(value_eq(&out, &Value::Bool(true)));
}

#[test]
fn set_data_refuses_rule_tree_conflicts() {
    // A rule defined at data.p.a collides with a data document that
    // already holds a value at p.a.
    let mut p = bare_program(
        vec![Instruction::Halt {}],
        vec![],
    );
    p.rule_tree = obj(vec![(
        text("data"),
        obj(vec![(text("p"), obj(vec![(text("a"), num(0))]))]),
    )]);
    p.rule_infos = vec![complete_rule(vec![0], None)];
    let mut vm = RegoVM::new();
    vm.load_program(p);
    let conflicting = obj(vec![(text("p"), obj(vec![(text("a"), num(5))]))]);
    assert!(matches!(
        vm.set_data(conflicting),
        Err(VmError::RuleDataConflict(_))
    ));
    let disjoint = obj(vec![(text("q"), num(5))]);
    assert!(vm.set_data(disjoint).is_ok());
}

#[test]
fn count_round_trip_through_program() {
    // Build a set from distinct keys and count it: Count returns the
    // number of elements.
    let mut p = bare_program(
        vec![
            Instruction::LoadInput { dest: 1 },
            Instruction::Count { dest: 0, collection: 1 },
            Instruction::Halt {},
        ],
        vec![],
    );
    p.dispatch_window_size = 4;
    let mut vm = RegoVM::new();
    vm.load_program(p);
    vm.set_input(set_of(vec![num(1), num(2), num(3)]));
    let out = vm.execute(&mut NoBuiltins::new()).unwrap();
    assert!(value_eq(&out, &num(3)));
}

#[test]
fn chained_index_walks_and_stops_at_undefined() {
    let mut p = bare_program(
        vec![
            Instruction::LoadInput { dest: 1 },
            Instruction::ChainedIndex { params_index: 0 },
            Instruction::Halt {},
        ],
        vec![text("a"), text("b")],
    );
    p.instruction_data.chained_index_params = vec![rvm::program::ChainedIndexParams {
        dest: 0,
        root: 1,
        path_components: vec![
            LiteralOrRegister::Literal(0),
            LiteralOrRegister::Literal(1),
        ],
    }];
    let mut vm = RegoVM::new();
    vm.load_program(p);
    vm.set_input(obj(vec![(text("a"), obj(vec![(text("b"), num(9))]))]));
    let out = vm.execute(&mut NoBuiltins::new()).unwrap();
    assert!(value_eq(&out, &num(9)));

    let mut vm2 = RegoVM::new();
    vm2.load_program(bare_program(
        vec![
            Instruction::LoadInput { dest: 1 },
            Instruction::ChainedIndex { params_index: 0 },
            Instruction::Halt {},
        ],
        vec![text("a"), text("b")],
    ));
    // missing parameter block is reported, not a crash
    assert!(vm2.execute(&mut NoBuiltins::new()).is_err());
}

fn any_program() -> Program {
    // r { some x in input.xs; x > 0 }
    let mut p = bare_program(
        vec![
            Instruction::CallRule { dest: 0, rule_index: 0 },
            Instruction::Halt {},
            // rule body
            Instruction::RuleInit { result_reg: 0, rule_index: 0 },
            Instruction::LoadInput { dest: 1 },
            Instruction::IndexLiteral { dest: 2, container: 1, literal_idx: 0 },
            Instruction::LoopStart { params_index: 0 },
            Instruction::Load { dest: 6, literal_idx: 1 },
            Instruction::Gt { dest: 7, left: 4, right: 6 },
            Instruction::AssertCondition { condition: 7 },
            Instruction::LoopNext { body_start: 6, loop_end: 10 },
            Instruction::Move { dest: 0, src: 5 },
            Instruction::RuleReturn {},
        ],
        vec![text("xs"), num(0)],
    );
    p.instruction_data.loop_params = vec![LoopStartParams {
        mode: LoopMode::Any,
        collection: 2,
        key_reg: 3,
        value_reg: 4,
        result_reg: 5,
        body_start: 6,
        loop_end: 10,
    }];
    p.rule_infos = vec![complete_rule(vec![2], None)];
    p
}

#[test]
fn any_is_the_existential_over_the_collection() {
    let mut vm = RegoVM::new();
    vm.load_program(any_program());
    vm.set_input(obj(vec![(text("xs"), arr(vec![num(-1), num(0), num(2)]))]));
    let out = vm.execute(&mut NoBuiltins::new()).unwrap();
    assert!(value_eq(&out, &Value::Bool(true)));

    let mut vm2 = RegoVM::new();
    vm2.load_program(any_program());
    vm2.set_input(obj(vec![(text("xs"), arr(vec![num(-1), num(0)]))]));
    let out2 = vm2.execute(&mut NoBuiltins::new()).unwrap();
    assert!(value_eq(&out2, &Value::Bool(false)));

    let mut vm3 = RegoVM::new();
    vm3.load_program(any_program());
    vm3.set_input(obj(vec![(text("xs"), arr(vec![]))]));
    let out3 = vm3.execute(&mut NoBuiltins::new()).unwrap();
    assert!(value_eq(&out3, &Value::Bool(false)));
}

#[test]
fn function_rules_take_arguments_and_are_not_cached() {
    // f(x) = x + 1, called twice with different arguments.
    let mut p = bare_program(
        vec![
            Instruction::Load { dest: 2, literal_idx: 0 },
            Instruction::FunctionCall { params_index: 0 },
            Instruction::Load { dest: 2, literal_idx: 1 },
            Instruction::FunctionCall { params_index: 1 },
            Instruction::Add { dest: 0, left: 3, right: 4 },
            Instruction::Halt {},
            // function body: r0 = r1 + 1
            Instruction::Load { dest: 2, literal_idx: 0 },
            Instruction::Add { dest: 0, left: 1, right: 2 },
            Instruction::RuleReturn {},
        ],
        vec![num(1), num(10)],
    );
    p.instruction_data.function_call_params = vec![
        rvm::program::FunctionCallParams { dest: 3, func_rule_index: 0, args: vec![2] },
        rvm::program::FunctionCallParams { dest: 4, func_rule_index: 0, args: vec![2] },
    ];
    p.rule_infos = vec![RuleInfo {
        name: "f".to_string(),
        result_reg: 0,
        num_registers: 4,
        definitions: vec![vec![6]],
        destructuring_blocks: vec![None],
        rule_type: RuleType::Complete,
        default_literal_index: None,
        function_info: Some(1),
    }];
    let mut vm = RegoVM::new();
    vm.load_program(p);
    let out = vm.execute(&mut NoBuiltins::new()).unwrap();
    // f(1) + f(10) = 2 + 11 = 13; a cached first result would give 4
    assert!(value_eq(&out, &num(13)));
}

#[test]
fn object_comprehension_binds_keys_to_values() {
    // {x: x for x in input.items}
    let mut p = bare_program(
        vec![
            Instruction::LoadInput { dest: 1 },
            Instruction::IndexLiteral { dest: 2, container: 1, literal_idx: 0 },
            Instruction::ComprehensionBegin { params_index: 0 },
            Instruction::LoopStart { params_index: 0 },
            Instruction::ComprehensionYield { value_reg: 4, key_reg: Some(4) },
            Instruction::LoopNext { body_start: 4, loop_end: 6 },
            Instruction::ComprehensionEnd {},
            Instruction::Move { dest: 0, src: 6 },
            Instruction::Halt {},
        ],
        vec![text("items")],
    );
    p.instruction_data.comprehension_begin_params = vec![ComprehensionBeginParams {
        mode: rvm::program::ComprehensionMode::Object,
        collection_reg: 6,
        comprehension_end: 6,
    }];
    p.instruction_data.loop_params = vec![LoopStartParams {
        mode: LoopMode::ForEach,
        collection: 2,
        key_reg: 3,
        value_reg: 4,
        result_reg: 5,
        body_start: 4,
        loop_end: 6,
    }];
    let mut vm = RegoVM::new();
    vm.load_program(p);
    vm.set_input(obj(vec![(text("items"), arr(vec![num(2), num(1)]))]));
    let out = vm.execute(&mut NoBuiltins::new()).unwrap();
    assert!(value_eq(&out, &obj(vec![(num(1), num(1)), (num(2), num(2))])));
}

#[test]
fn virtual_lookup_falls_back_to_data_on_a_miss() {
    // A path that leaves the rule tree is applied to the data document.
    let mut p = bare_program(
        vec![
            Instruction::VirtualDataDocumentLookup { params_index: 0 },
            Instruction::Halt {},
        ],
        vec![text("q"), text("k")],
    );
    p.instruction_data.virtual_data_document_lookup_params =
        vec![VirtualDataDocumentLookupParams {
            dest: 0,
            path_components: vec![
                LiteralOrRegister::Literal(0),
                LiteralOrRegister::Literal(1),
            ],
        }];
    p.rule_tree = obj(vec![(text("data"), obj(vec![]))]);
    let mut vm = RegoVM::new();
    vm.load_program(p);
    vm.set_data(obj(vec![(text("q"), obj(vec![(text("k"), num(5))]))]))
        .unwrap();
    let out = vm.execute(&mut NoBuiltins::new()).unwrap();
    assert!(value_eq(&out, &num(5)));
}

#[test]
fn destructuring_failure_skips_the_definition() {
    // Definition 0 has a destructuring prelude that fails, so only
    // definition 1 contributes; a passing prelude lets definition 0 win.
    fn program(prelude_passes: bool) -> Program {
        let mut p = bare_program(
            vec![
                Instruction::CallRule { dest: 0, rule_index: 0 },
                Instruction::Halt {},
                // destructuring prelude for definition 0
                Instruction::LoadBool { dest: 1, value: prelude_passes },
                Instruction::AssertCondition { condition: 1 },
                Instruction::DestructuringSuccess {},
                // body of definition 0
                Instruction::Load { dest: 0, literal_idx: 0 },
                Instruction::RuleReturn {},
                // body of definition 1
                Instruction::Load { dest: 0, literal_idx: 1 },
                Instruction::RuleReturn {},
            ],
            vec![num(9), num(5)],
        );
        p.rule_infos = vec![RuleInfo {
            name: "r".to_string(),
            result_reg: 0,
            num_registers: 4,
            definitions: vec![vec![5], vec![7]],
            destructuring_blocks: vec![Some(2), None],
            rule_type: RuleType::Complete,
            default_literal_index: None,
            function_info: None,
        }];
        p
    }
    let mut vm = RegoVM::new();
    vm.load_program(program(false));
    let out = vm.execute(&mut NoBuiltins::new()).unwrap();
    assert!(value_eq(&out, &num(5)));

    // with the prelude passing, both definitions run and disagree,
    // which makes the complete rule inconsistent
    let mut vm2 = RegoVM::new();
    vm2.load_program(program(true));
    let out2 = vm2.execute(&mut NoBuiltins::new()).unwrap();
    assert!(matches!(out2, Value::Undefined));
}

#[test]
fn boolean_operations_use_truthiness_and_never_fail() {
    // not(input.absent) is true: Undefined is falsy; null and numbers
    // are truthy.
    let p = bare_program(
        vec![
            Instruction::LoadInput { dest: 1 },
            Instruction::IndexLiteral { dest: 2, container: 1, literal_idx: 0 },
            Instruction::Not { dest: 3, operand: 2 },
            Instruction::LoadNull { dest: 4 },
            Instruction::And { dest: 0, left: 3, right: 4 },
            Instruction::Halt {},
        ],
        vec![text("absent")],
    );
    let mut vm = RegoVM::new();
    vm.load_program(p);
    vm.set_input(obj(vec![]));
    let out = vm.execute(&mut NoBuiltins::new()).unwrap();
    assert!(value_eq(&out, &Value::Bool(true)));
}

#[test]
fn virtual_lookup_applies_leftover_components_to_the_rule_result() {
    // The walk reaches the rule leaf at `r` with one component left; the
    // leftover component indexes into the rule's result object.
    let mut p = bare_program(
        vec![
            Instruction::VirtualDataDocumentLookup { params_index: 0 },
            Instruction::Halt {},
            // rule 0 returns {"a": 1}
            Instruction::Load { dest: 1, literal_idx: 2 },
            Instruction::Load { dest: 2, literal_idx: 3 },
            Instruction::ObjectCreate { params_index: 0 },
            Instruction::RuleReturn {},
        ],
        vec![text("r"), text("a"), text("a"), num(1), Value::new_object()],
    );
    p.instruction_data.virtual_data_document_lookup_params =
        vec![VirtualDataDocumentLookupParams {
            dest: 0,
            path_components: vec![
                LiteralOrRegister::Literal(0),
                LiteralOrRegister::Literal(1),
            ],
        }];
    p.instruction_data.object_create_params = vec![rvm::program::ObjectCreateParams {
        dest: 0,
        template_literal_idx: 4,
        literal_key_field_pairs: vec![],
        field_pairs: vec![(1, 2)],
    }];
    p.rule_infos = vec![complete_rule(vec![2], None)];
    p.rule_tree = obj(vec![(text("data"), obj(vec![(text("r"), num(0))]))]);
    let mut vm = RegoVM::new();
    vm.load_program(p);
    let out = vm.execute(&mut NoBuiltins::new()).unwrap();
    assert!(value_eq(&out, &num(1)));
}

struct CountHost;

impl rvm::vm::BuiltinHost for CountHost {
    fn call_builtin(&mut self, index: u16, args: Vec<Value>) -> Option<Result<Value, String>> {
        if index != 0 || args.len() != 1 {
            return None;
        }
        match rvm::containers::count_value(&args[0]) {
            Some(v) => Some(Ok(v)),
            None => Some(Err("collection too large".to_string())),
        }
    }
}

#[test]
fn builtins_run_through_the_host() {
    // With a host that implements builtin 0 as a count, the call's
    // result lands in the destination register.
    let mut p = bare_program(
        vec![
            Instruction::LoadInput { dest: 1 },
            Instruction::BuiltinCall { params_index: 0 },
            Instruction::Halt {},
        ],
        vec![],
    );
    p.builtin_info_table = vec![BuiltinInfo { name: "count".to_string(), num_args: 1 }];
    p.instruction_data.builtin_call_params = vec![BuiltinCallParams {
        dest: 0,
        builtin_index: 0,
        arg_registers: vec![1],
    }];
    let mut vm = RegoVM::new();
    vm.load_program(p);
    vm.set_input(arr(vec![num(4), num(5), num(6)]));
    let mut host = CountHost;
    let out = vm.execute(&mut host).unwrap();
    assert!(value_eq(&out, &num(3)));
}

