//! Unit tests of the value model: exact arithmetic, the total order,
//! containers, indexing, containment and count.

use rvm::containers::{
    arr_pushed, count_value, obj_inserted, set_added, value_contains, value_index,
};
use rvm::number::Number;
use rvm::ops::{add_values, div_values, mod_values, mul_values, sub_values};
use rvm::value::{clone_value, to_bool_value, value_cmp, value_eq, Value};
use rvm::errors::VmError;

fn num(n: i64) -> Value {
    Value::from_i64(n)
}

fn rat(num: i64, den: u64) -> Value {
    Value::Num(Number { num, den })
}

fn text(s: &str) -> Value {
    Value::Text(s.to_string())
}

fn obj(pairs: Vec<(Value, Value)>) -> Value {
    let mut o = Value::new_object();
    for (k, v) in pairs {
        o = obj_inserted(o, k, v).unwrap();
    }
    o
}

fn set_of(items: Vec<Value>) -> Value {
    let mut s = Value::new_set();
    for v in items {
        s = set_added(s, v).unwrap();
    }
    s
}

#[test]
fn addition_is_exact() {
    let r = add_values(&num(2), &num(3)).unwrap();
    assert!(value_eq(&r, &num(5)));
    let r2 = add_values(&rat(1, 2), &rat(1, 3)).unwrap();
    assert!(value_eq(&r2, &rat(5, 6)));
}

#[test]
fn subtraction_and_multiplication() {
    let r = sub_values(&num(2), &num(5)).unwrap();
    assert!(value_eq(&r, &num(-3)));
    let r2 = mul_values(&rat(2, 3), &rat(3, 4)).unwrap();
    assert!(value_eq(&r2, &rat(1, 2)));
}

#[test]
fn division_yields_rationals() {
    let r = div_values(&num(7), &num(2)).unwrap();
    assert!(value_eq(&r, &rat(7, 2)));
    let r2 = div_values(&num(6), &num(3)).unwrap();
    assert!(value_eq(&r2, &num(2)));
}

#[test]
fn division_by_zero_is_undefined_not_an_error() {
    let r = div_values(&num(7), &num(0)).unwrap();
    assert!(matches!(r, Value::Undefined));
    let m = mod_values(&num(7), &num(0)).unwrap();
    assert!(matches!(m, Value::Undefined));
}

#[test]
fn modulo_truncates_toward_zero() {
    let r = mod_values(&num(7), &num(2)).unwrap();
    assert!(value_eq(&r, &num(1)));
    let r2 = mod_values(&num(-7), &num(2)).unwrap();
    assert!(value_eq(&r2, &num(-1)));
    let r3 = mod_values(&num(7), &num(-2)).unwrap();
    assert!(value_eq(&r3, &num(1)));
}

#[test]
fn modulo_on_non_integers_is_an_error() {
    let r = mod_values(&rat(1, 2), &num(2));
    assert!(matches!(r, Err(VmError::ModuloOnFloat)));
}

#[test]
fn arithmetic_on_non_numbers_reports_the_operands() {
    let r = add_values(&text("a"), &num(1));
    match r {
        Err(VmError::InvalidAddition { left, right }) => {
            assert!(value_eq(&left, &text("a")));
            assert!(value_eq(&right, &num(1)));
        },
        _ => panic!("expected an invalid-addition error"),
    }
}

#[test]
fn total_order_ranks_kinds_and_compares_within() {
    // Null < Bool < Number < String < Array < Object < Set
    assert!(value_cmp(&Value::Null, &Value::Bool(false)) < 0);
    assert!(value_cmp(&Value::Bool(true), &num(0)) < 0);
    assert!(value_cmp(&num(5), &text("a")) < 0);
    assert!(value_cmp(&text("z"), &Value::Arr(vec![])) < 0);
    assert!(value_cmp(&Value::Arr(vec![]), &Value::new_object()) < 0);
    assert!(value_cmp(&Value::new_object(), &Value::new_set()) < 0);
    // within kinds
    assert!(value_cmp(&num(-1), &num(1)) < 0);
    assert!(value_cmp(&rat(1, 2), &rat(2, 3)) < 0);
    assert_eq!(value_cmp(&rat(2, 4), &rat(1, 2)), 0);
    assert!(value_cmp(&text("ab"), &text("b")) < 0);
    assert!(value_cmp(&text("a"), &text("ab")) < 0);
    assert_eq!(value_cmp(&text("ab"), &text("ab")), 0);
}

#[test]
fn undefined_is_distinct_from_null() {
    assert!(value_cmp(&Value::Undefined, &Value::Null) != 0);
    assert!(!to_bool_value(&Value::Undefined));
    assert!(!to_bool_value(&Value::Bool(false)));
    assert!(to_bool_value(&Value::Null));
    assert!(to_bool_value(&num(0)));
}

#[test]
fn object_insert_sorts_and_replaces() {
    let o = obj(vec![
        (text("b"), num(2)),
        (text("a"), num(1)),
        (text("b"), num(3)),
    ]);
    assert!(value_eq(
        &o,
        &obj(vec![(text("a"), num(1)), (text("b"), num(3))])
    ));
    let v = value_index(&o, &text("b"));
    assert!(value_eq(&v, &num(3)));
    let missing = value_index(&o, &text("z"));
    assert!(matches!(missing, Value::Undefined));
}

#[test]
fn count_matches_the_number_of_distinct_insertions() {
    let s = set_of(vec![num(1), num(2), num(2), num(3)]);
    let c = count_value(&s).unwrap();
    assert!(value_eq(&c, &num(3)));
    let o = obj(vec![(text("a"), num(1)), (text("b"), num(2))]);
    let c2 = count_value(&o).unwrap();
    assert!(value_eq(&c2, &num(2)));
    let a = Value::Arr(vec![num(1), num(1)]);
    let c3 = count_value(&a).unwrap();
    assert!(value_eq(&c3, &num(2)));
    let c4 = count_value(&num(5)).unwrap();
    assert!(matches!(c4, Value::Undefined));
}

#[test]
fn containment_in_sets_arrays_and_objects() {
    let s = set_of(vec![num(1), num(2)]);
    assert!(value_contains(&s, &num(2)));
    assert!(!value_contains(&s, &num(3)));
    let a = arr_pushed(Value::new_array(), num(9)).unwrap();
    assert!(value_contains(&a, &num(9)));
    let o = obj(vec![(text("k"), num(7))]);
    assert!(value_contains(&o, &text("k")));
    assert!(value_contains(&o, &num(7)));
    assert!(!value_contains(&o, &num(8)));
    assert!(!value_contains(&num(1), &num(1)));
}

#[test]
fn array_indexing_by_number() {
    let a = Value::Arr(vec![num(10), num(20)]);
    assert!(value_eq(&value_index(&a, &num(0)), &num(10)));
    assert!(value_eq(&value_index(&a, &num(1)), &num(20)));
    assert!(matches!(value_index(&a, &num(2)), Value::Undefined));
    assert!(matches!(value_index(&a, &rat(1, 2)), Value::Undefined));
    assert!(matches!(value_index(&a, &text("0")), Value::Undefined));
    // an equal rational in unreduced form indexes the same element
    assert!(value_eq(&value_index(&a, &rat(2, 2)), &num(20)));
}

#[test]
fn set_indexing_yields_the_member() {
    let s = set_of(vec![num(4), num(5)]);
    assert!(value_eq(&value_index(&s, &num(4)), &num(4)));
    assert!(matches!(value_index(&s, &num(6)), Value::Undefined));
}

#[test]
fn indexing_scalars_never_fails() {
    assert!(matches!(value_index(&num(1), &num(0)), Value::Undefined));
    assert!(matches!(value_index(&Value::Null, &text("a")), Value::Undefined));
    assert!(matches!(
        value_index(&Value::Undefined, &text("a")),
        Value::Undefined
    ));
}

#[test]
fn clone_preserves_structure() {
    let o = obj(vec![
        (text("a"), Value::Arr(vec![num(1), rat(1, 2)])),
        (text("b"), set_of(vec![text("x")])),
    ]);
    let c = clone_value(&o);
    assert!(value_eq(&o, &c));
}

#[test]
fn mutating_a_non_container_reports_its_kind() {
    assert!(obj_inserted(num(1), text("k"), num(2)).is_err());
    assert!(set_added(text("s"), num(1)).is_err());
    assert!(arr_pushed(Value::new_object(), num(1)).is_err());
}
