//! Undefined-aware binary arithmetic on values.
//!
//! All five operations require numeric operands and report the matching
//! `Invalid…` error otherwise. Division and modulo by zero yield
//! `Undefined` rather than an error; modulo further requires integer
//! operands. A result that cannot be represented after reduction is an
//! `ArithmeticError`. Operands that are `Undefined` never reach these
//! functions: the dispatcher routes them to the condition handler first.

use vstd::prelude::*;
use crate::value::{Value, SpecValue, wf_val, clone_value};
use crate::number::{
    Number, add_numbers, sub_numbers, mul_numbers, div_numbers, mod_numbers, trunc_mod,
};
use crate::errors::VmError;

verus! {

/// `v` denotes the rational `p / q` (denominators positive, cross-multiplied).
pub open spec fn denotes_rat(v: SpecValue, p: int, q: int) -> bool {
    &&& v is Num
    &&& v->d >= 1
    &&& q >= 1
    &&& v->n * q == p * v->d
}

/// Both operands of an arithmetic instruction must be numbers.
pub open spec fn both_nums(a: SpecValue, b: SpecValue) -> bool {
    a is Num && b is Num
}

/// Exact sum of two numeric values.
pub fn add_values(a: &Value, b: &Value) -> (r: Result<Value, VmError>)
    requires
        wf_val(a@),
        wf_val(b@),
    ensures
        both_nums(a@, b@) ==> (match r {
            Ok(v) => wf_val(v@) && denotes_rat(
                v@,
                a@->n * b@->d + b@->n * a@->d,
                a@->d * b@->d,
            ),
            Err(e) => e is ArithmeticError,
        }),
        both_nums(a@, b@) ==> (r matches Ok(v) ==> v@ == ({
            let rp = crate::number::reduced_of(a@->n * b@->d + b@->n * a@->d, a@->d * b@->d);
            SpecValue::Num { n: rp.0, d: rp.1 }
        })),
        !both_nums(a@, b@) ==> (r matches Err(e) && e matches VmError::InvalidAddition {
            left,
            right,
        } && left@ == a@ && right@ == b@),
        (both_nums(a@, b@) && i64::MIN <= a@->n * b@->d + b@->n * a@->d <= i64::MAX && a@->d
            * b@->d <= u64::MAX) ==> r is Ok,
{
    match (a, b) {
        (Value::Num(x), Value::Num(y)) => {
            proof {
                lemma_den_pos(a@->d, b@->d);
            }
            match add_numbers(x, y) {
                Some(m) => Ok(Value::Num(m)),
                None => Err(VmError::ArithmeticError("addition result out of range".to_owned())),
            }
        },
        _ => Err(
            VmError::InvalidAddition { left: clone_value(a), right: clone_value(b) },
        ),
    }
}

/// Exact difference of two numeric values.
pub fn sub_values(a: &Value, b: &Value) -> (r: Result<Value, VmError>)
    requires
        wf_val(a@),
        wf_val(b@),
    ensures
        both_nums(a@, b@) ==> (match r {
            Ok(v) => wf_val(v@) && denotes_rat(
                v@,
                a@->n * b@->d - b@->n * a@->d,
                a@->d * b@->d,
            ),
            Err(e) => e is ArithmeticError,
        }),
        both_nums(a@, b@) ==> (r matches Ok(v) ==> v@ == ({
            let rp = crate::number::reduced_of(a@->n * b@->d - b@->n * a@->d, a@->d * b@->d);
            SpecValue::Num { n: rp.0, d: rp.1 }
        })),
        !both_nums(a@, b@) ==> (r matches Err(e) && e matches VmError::InvalidSubtraction {
            left,
            right,
        } && left@ == a@ && right@ == b@),
        (both_nums(a@, b@) && i64::MIN <= a@->n * b@->d - b@->n * a@->d <= i64::MAX && a@->d
            * b@->d <= u64::MAX) ==> r is Ok,
{
    match (a, b) {
        (Value::Num(x), Value::Num(y)) => {
            proof {
                lemma_den_pos(a@->d, b@->d);
            }
            match sub_numbers(x, y) {
                Some(m) => Ok(Value::Num(m)),
                None => Err(
                    VmError::ArithmeticError("subtraction result out of range".to_owned()),
                ),
            }
        },
        _ => Err(
            VmError::InvalidSubtraction { left: clone_value(a), right: clone_value(b) },
        ),
    }
}

/// Exact product of two numeric values.
pub fn mul_values(a: &Value, b: &Value) -> (r: Result<Value, VmError>)
    requires
        wf_val(a@),
        wf_val(b@),
    ensures
        both_nums(a@, b@) ==> (match r {
            Ok(v) => wf_val(v@) && denotes_rat(v@, a@->n * b@->n, a@->d * b@->d),
            Err(e) => e is ArithmeticError,
        }),
        both_nums(a@, b@) ==> (r matches Ok(v) ==> v@ == ({
            let rp = crate::number::reduced_of(a@->n * b@->n, a@->d * b@->d);
            SpecValue::Num { n: rp.0, d: rp.1 }
        })),
        !both_nums(a@, b@) ==> (r matches Err(e) && e matches VmError::InvalidMultiplication {
            left,
            right,
        } && left@ == a@ && right@ == b@),
        (both_nums(a@, b@) && i64::MIN <= a@->n * b@->n <= i64::MAX && a@->d * b@->d <= u64::MAX)
            ==> r is Ok,
{
    match (a, b) {
        (Value::Num(x), Value::Num(y)) => {
            proof {
                lemma_den_pos(a@->d, b@->d);
            }
            match mul_numbers(x, y) {
                Some(m) => Ok(Value::Num(m)),
                None => Err(
                    VmError::ArithmeticError("multiplication result out of range".to_owned()),
                ),
            }
        },
        _ => Err(
            VmError::InvalidMultiplication { left: clone_value(a), right: clone_value(b) },
        ),
    }
}

/// Exact quotient of two numeric values; a zero divisor yields `Undefined`.
pub fn div_values(a: &Value, b: &Value) -> (r: Result<Value, VmError>)
    requires
        wf_val(a@),
        wf_val(b@),
    ensures
        both_nums(a@, b@) && b@->n == 0 ==> (r matches Ok(v) && v@ is Undefined),
        both_nums(a@, b@) && b@->n != 0 ==> (match r {
            Ok(v) => wf_val(v@) && v@ is Num && v@->d >= 1 && v@->n * (a@->d * b@->n) == (a@->n
                * b@->d) * v@->d,
            Err(e) => e is ArithmeticError,
        }),
        !both_nums(a@, b@) ==> (r matches Err(e) && e matches VmError::InvalidDivision {
            left,
            right,
        } && left@ == a@ && right@ == b@),
        (both_nums(a@, b@) && crate::number::abs_int(a@->n * b@->d) <= i64::MAX && a@->d
            * crate::number::abs_int(b@->n) <= u64::MAX) ==> r is Ok,
{
    match (a, b) {
        (Value::Num(x), Value::Num(y)) => {
            if y.is_zero() {
                return Ok(Value::Undefined);
            }
            proof {
                lemma_den_pos(a@->d, b@->d);
            }
            match div_numbers(x, y) {
                Some(m) => {
                    proof {
                        assert((m.num as int) * (a@->d * b@->n) == (a@->n * b@->d) * (
                        m.den as int)) by (nonlinear_arith)
                            requires
                                (m.num as int) * (a@->d) * (b@->n) == (a@->n) * (b@->d) * (
                                m.den as int),
                        ;
                    }
                    Ok(Value::Num(m))
                },
                None => Err(VmError::ArithmeticError("division result out of range".to_owned())),
            }
        },
        _ => Err(
            VmError::InvalidDivision { left: clone_value(a), right: clone_value(b) },
        ),
    }
}

/// Truncated remainder of two integer-denoting values; a zero divisor
/// yields `Undefined`, a non-integer operand is `ModuloOnFloat`.
pub fn mod_values(a: &Value, b: &Value) -> (r: Result<Value, VmError>)
    requires
        wf_val(a@),
        wf_val(b@),
    ensures
        both_nums(a@, b@) && b@->n == 0 ==> (r matches Ok(v) && v@ is Undefined),
        both_nums(a@, b@) && b@->n != 0 && !(a@->n % a@->d == 0 && b@->n % b@->d == 0) ==> (
        r matches Err(e) && e is ModuloOnFloat),
        both_nums(a@, b@) && b@->n != 0 && a@->n % a@->d == 0 && b@->n % b@->d == 0 ==> (
        r matches Ok(v) && v@ == (SpecValue::Num {
            n: trunc_mod(a@->n / a@->d, b@->n / b@->d),
            d: 1,
        }) && wf_val(v@)),
        !both_nums(a@, b@) ==> (r matches Err(e) && e matches VmError::InvalidModulo {
            left,
            right,
        } && left@ == a@ && right@ == b@),
{
    match (a, b) {
        (Value::Num(x), Value::Num(y)) => {
            if y.is_zero() {
                return Ok(Value::Undefined);
            }
            proof {
                lemma_den_pos(a@->d, b@->d);
            }
            if !x.is_integer() || !y.is_integer() {
                return Err(VmError::ModuloOnFloat);
            }
            Ok(Value::Num(mod_numbers(x, y)))
        },
        _ => Err(
            VmError::InvalidModulo { left: clone_value(a), right: clone_value(b) },
        ),
    }
}

proof fn lemma_den_pos(da: int, db: int)
    requires
        da >= 1,
        db >= 1,
    ensures
        da * db >= 1,
{
    assert(da * db >= 1) by (nonlinear_arith)
        requires
            da >= 1,
            db >= 1,
    ;
}

} // verus!
