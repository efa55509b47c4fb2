//! The tagged value model: null, bool, number, string, array, ordered
//! object, ordered set, and the distinguished `Undefined` sentinel.
//!
//! Containers are kept in ascending key order under a total comparison
//! over all value kinds, so equality, ordering, indexing and iteration
//! order are all deterministic functions of the value itself.

use vstd::prelude::*;
use crate::number::Number;
use crate::number::lemma_prod_bounds;

verus! {

broadcast use vstd::group_vstd_default;

/// The mathematical model of a [`Value`]: the same shape over `int`,
/// `Seq<char>` and `Seq`, used by every contract in the crate.
pub enum SpecValue {
    Null,
    Bool(bool),
    Num { n: int, d: int },
    Text(Seq<char>),
    Arr(Seq<SpecValue>),
    Obj(Seq<(SpecValue, SpecValue)>),
    SetV(Seq<SpecValue>),
    Undefined,
}

/// Rank of each value kind in the total order:
/// `Null < Bool < Num < Text < Arr < Obj < SetV < Undefined`.
pub open spec fn rank(v: SpecValue) -> int {
    match v {
        SpecValue::Null => 0,
        SpecValue::Bool(_) => 1,
        SpecValue::Num { .. } => 2,
        SpecValue::Text(_) => 3,
        SpecValue::Arr(_) => 4,
        SpecValue::Obj(_) => 5,
        SpecValue::SetV(_) => 6,
        SpecValue::Undefined => 7,
    }
}

pub open spec fn sign(x: int) -> int {
    if x < 0 {
        -1
    } else if x == 0 {
        0
    } else {
        1
    }
}

/// Three-way comparison: -1, 0 or 1. Numbers compare as rationals;
/// strings, arrays, objects and sets compare lexicographically.
pub open spec fn cmp_vals(a: SpecValue, b: SpecValue) -> int
    decreases a, 0int, 0int,
{
    if rank(a) != rank(b) {
        sign(rank(a) - rank(b))
    } else {
        match (a, b) {
            (SpecValue::Bool(x), SpecValue::Bool(y)) => {
                if x == y {
                    0
                } else if y {
                    -1
                } else {
                    1
                }
            },
            (SpecValue::Num { n: n1, d: d1 }, SpecValue::Num { n: n2, d: d2 }) => sign(
                n1 * d2 - n2 * d1,
            ),
            (SpecValue::Text(x), SpecValue::Text(y)) => cmp_chars(x, y, 0),
            (SpecValue::Arr(x), SpecValue::Arr(y)) => cmp_seqs(x, y, 0),
            (SpecValue::Obj(x), SpecValue::Obj(y)) => cmp_kvs(x, y, 0),
            (SpecValue::SetV(x), SpecValue::SetV(y)) => cmp_seqs(x, y, 0),
            _ => 0,
        }
    }
}

pub open spec fn cmp_chars(x: Seq<char>, y: Seq<char>, i: nat) -> int
    decreases x.len() - i,
{
    if i < x.len() && i < y.len() {
        if (x[i as int] as u32) < (y[i as int] as u32) {
            -1
        } else if (x[i as int] as u32) > (y[i as int] as u32) {
            1
        } else {
            cmp_chars(x, y, i + 1)
        }
    } else if i >= x.len() && i >= y.len() {
        0
    } else if i >= x.len() {
        -1
    } else {
        1
    }
}

pub open spec fn cmp_seqs(x: Seq<SpecValue>, y: Seq<SpecValue>, i: nat) -> int
    decreases x, 1int, x.len() - i,
{
    if i < x.len() && i < y.len() {
        let c = cmp_vals(x[i as int], y[i as int]);
        if c != 0 {
            c
        } else {
            cmp_seqs(x, y, i + 1)
        }
    } else if i >= x.len() && i >= y.len() {
        0
    } else if i >= x.len() {
        -1
    } else {
        1
    }
}

pub open spec fn cmp_kvs(x: Seq<(SpecValue, SpecValue)>, y: Seq<(SpecValue, SpecValue)>, i: nat) -> int
    decreases x, 1int, x.len() - i,
{
    if i < x.len() && i < y.len() {
        let c = cmp_vals(x[i as int].0, y[i as int].0);
        if c != 0 {
            c
        } else {
            let cv = cmp_vals(x[i as int].1, y[i as int].1);
            if cv != 0 {
                cv
            } else {
                cmp_kvs(x, y, i + 1)
            }
        }
    } else if i >= x.len() && i >= y.len() {
        0
    } else if i >= x.len() {
        -1
    } else {
        1
    }
}

/// Well-formedness: positive denominators throughout, and container
/// entries strictly ascending in the total order.
pub open spec fn wf_val(v: SpecValue) -> bool
    decreases v, 0int,
{
    match v {
        SpecValue::Num { n: _, d } => d >= 1,
        SpecValue::Arr(s) => wf_list_from(s, 0),
        SpecValue::Obj(s) => wf_kvs_from(s, 0),
        SpecValue::SetV(s) => wf_elems_from(s, 0),
        _ => true,
    }
}

pub open spec fn wf_list_from(s: Seq<SpecValue>, i: nat) -> bool
    decreases s, 1int, s.len() - i,
{
    if i < s.len() {
        wf_val(s[i as int]) && wf_list_from(s, i + 1)
    } else {
        true
    }
}

pub open spec fn wf_kvs_from(s: Seq<(SpecValue, SpecValue)>, i: nat) -> bool
    decreases s, 1int, s.len() - i,
{
    if i < s.len() {
        &&& wf_val(s[i as int].0)
        &&& wf_val(s[i as int].1)
        &&& (i + 1 < s.len() ==> cmp_vals(s[i as int].0, s[i as int + 1].0) < 0)
        &&& wf_kvs_from(s, i + 1)
    } else {
        true
    }
}

pub open spec fn wf_elems_from(s: Seq<SpecValue>, i: nat) -> bool
    decreases s, 1int, s.len() - i,
{
    if i < s.len() {
        &&& wf_val(s[i as int])
        &&& (i + 1 < s.len() ==> cmp_vals(s[i as int], s[i as int + 1]) < 0)
        &&& wf_elems_from(s, i + 1)
    } else {
        true
    }
}

/// Quantified readings of well-formedness, for use in contracts.
pub open spec fn all_wf(s: Seq<SpecValue>) -> bool {
    forall|j: int| 0 <= j < s.len() ==> wf_val(#[trigger] s[j])
}

pub open spec fn ascending(s: Seq<SpecValue>) -> bool {
    forall|j: int| 0 <= j && j + 1 < s.len() ==> cmp_vals(#[trigger] s[j], s[j + 1]) < 0
}

pub open spec fn all_wf_kvs(s: Seq<(SpecValue, SpecValue)>) -> bool {
    forall|j: int| 0 <= j < s.len() ==> wf_val(#[trigger] s[j].0) && wf_val(s[j].1)
}

pub open spec fn ascending_keys(s: Seq<(SpecValue, SpecValue)>) -> bool {
    forall|j: int| 0 <= j && j + 1 < s.len() ==> cmp_vals(#[trigger] s[j].0, s[j + 1].0) < 0
}

proof fn lemma_wf_list_char(s: Seq<SpecValue>, i: nat)
    ensures
        wf_list_from(s, i) == (forall|j: int| i <= j < s.len() ==> wf_val(#[trigger] s[j])),
    decreases s.len() - i,
{
    if i < s.len() {
        lemma_wf_list_char(s, i + 1);
    }
}

proof fn lemma_wf_kvs_char(s: Seq<(SpecValue, SpecValue)>, i: nat)
    ensures
        wf_kvs_from(s, i) == ((forall|j: int|
            i <= j < s.len() ==> wf_val(#[trigger] s[j].0) && wf_val(s[j].1)) && (forall|j: int|
            i <= j && j + 1 < s.len() ==> cmp_vals(#[trigger] s[j].0, s[j + 1].0) < 0)),
    decreases s.len() - i,
{
    if i < s.len() {
        lemma_wf_kvs_char(s, i + 1);
    }
}

proof fn lemma_wf_elems_char(s: Seq<SpecValue>, i: nat)
    ensures
        wf_elems_from(s, i) == ((forall|j: int| i <= j < s.len() ==> wf_val(#[trigger] s[j])) && (
        forall|j: int| i <= j && j + 1 < s.len() ==> cmp_vals(#[trigger] s[j], s[j + 1]) < 0)),
    decreases s.len() - i,
{
    if i < s.len() {
        lemma_wf_elems_char(s, i + 1);
    }
}

/// An array is well-formed exactly when its elements are.
pub proof fn lemma_wf_arr(s: Seq<SpecValue>)
    ensures
        wf_val(SpecValue::Arr(s)) == all_wf(s),
{
    lemma_wf_list_char(s, 0);
}

/// An object is well-formed exactly when its entries are and its keys ascend.
pub proof fn lemma_wf_obj(s: Seq<(SpecValue, SpecValue)>)
    ensures
        wf_val(SpecValue::Obj(s)) == (all_wf_kvs(s) && ascending_keys(s)),
{
    lemma_wf_kvs_char(s, 0);
}

/// A set is well-formed exactly when its elements are and they ascend.
pub proof fn lemma_wf_set(s: Seq<SpecValue>)
    ensures
        wf_val(SpecValue::SetV(s)) == (all_wf(s) && ascending(s)),
{
    lemma_wf_elems_char(s, 0);
}

/// Truthiness: `Undefined` is false, booleans are themselves,
/// everything else is true.
pub open spec fn truthy(v: SpecValue) -> bool {
    match v {
        SpecValue::Undefined => false,
        SpecValue::Bool(b) => b,
        _ => true,
    }
}

// ------------------------------------------------------------------
// The executable value
// ------------------------------------------------------------------

/// A policy value. `Obj` and `SetV` keep their entries strictly sorted
/// by [`cmp_vals`] on views; [`wf_val`] of the view states this.
#[derive(Debug)]
pub enum Value {
    Null,
    Bool(bool),
    Num(Number),
    Text(String),
    Arr(Vec<Value>),
    Obj(Vec<(Value, Value)>),
    SetV(Vec<Value>),
    Undefined,
}

/// View of a vector of values, elementwise.
pub open spec fn seq_view(items: Seq<Value>) -> Seq<SpecValue>
    decreases items, 0int,
{
    Seq::new(
        items.len(),
        |i: int|
            if 0 <= i < items.len() {
                view_of(items[i])
            } else {
                SpecValue::Null
            },
    )
}

/// View of a vector of key/value pairs, elementwise.
pub open spec fn kvs_view(entries: Seq<(Value, Value)>) -> Seq<(SpecValue, SpecValue)>
    decreases entries, 0int,
{
    Seq::new(
        entries.len(),
        |i: int|
            if 0 <= i < entries.len() {
                (view_of(entries[i].0), view_of(entries[i].1))
            } else {
                (SpecValue::Null, SpecValue::Null)
            },
    )
}

pub open spec fn view_of(v: Value) -> SpecValue
    decreases v, 1int,
{
    match v {
        Value::Null => SpecValue::Null,
        Value::Bool(b) => SpecValue::Bool(b),
        Value::Num(m) => SpecValue::Num { n: m.num as int, d: m.den as int },
        Value::Text(s) => SpecValue::Text(s@),
        Value::Arr(items) => SpecValue::Arr(seq_view(items@)),
        Value::Obj(entries) => SpecValue::Obj(kvs_view(entries@)),
        Value::SetV(items) => SpecValue::SetV(seq_view(items@)),
        Value::Undefined => SpecValue::Undefined,
    }
}

impl View for Value {
    type V = SpecValue;

    open spec fn view(&self) -> SpecValue {
        view_of(*self)
    }
}

impl Value {
    pub fn new_object() -> (r: Value)
        ensures
            r@ == SpecValue::Obj(Seq::<(SpecValue, SpecValue)>::empty()),
            wf_val(r@),
    {
        let v: Vec<(Value, Value)> = Vec::new();
        let r = Value::Obj(v);
        proof {
            assert(v@ =~= Seq::<(Value, Value)>::empty());
            assert(kvs_view(v@) =~= Seq::<(SpecValue, SpecValue)>::empty());
            lemma_wf_obj(kvs_view(v@));
        }
        r
    }

    pub fn new_set() -> (r: Value)
        ensures
            r@ == SpecValue::SetV(Seq::<SpecValue>::empty()),
            wf_val(r@),
    {
        let v: Vec<Value> = Vec::new();
        let r = Value::SetV(v);
        proof {
            assert(v@ =~= Seq::<Value>::empty());
            assert(seq_view(v@) =~= Seq::<SpecValue>::empty());
            lemma_wf_set(seq_view(v@));
        }
        r
    }

    pub fn new_array() -> (r: Value)
        ensures
            r@ == SpecValue::Arr(Seq::<SpecValue>::empty()),
            wf_val(r@),
    {
        let v: Vec<Value> = Vec::new();
        let r = Value::Arr(v);
        proof {
            assert(v@ =~= Seq::<Value>::empty());
            assert(seq_view(v@) =~= Seq::<SpecValue>::empty());
            lemma_wf_arr(seq_view(v@));
        }
        r
    }

    pub fn from_i64(n: i64) -> (r: Value)
        ensures
            r@ == (SpecValue::Num { n: n as int, d: 1 }),
            wf_val(r@),
    {
        Value::Num(Number::from_i64(n))
    }

    pub fn from_bool(b: bool) -> (r: Value)
        ensures
            r@ == SpecValue::Bool(b),
            wf_val(r@),
    {
        Value::Bool(b)
    }
}

/// Truthiness of a value as the dispatcher sees it.
pub fn to_bool_value(v: &Value) -> (r: bool)
    ensures
        r == truthy(v@),
{
    match v {
        Value::Undefined => false,
        Value::Bool(b) => *b,
        _ => true,
    }
}

pub fn is_undefined(v: &Value) -> (r: bool)
    ensures
        r == (v@ is Undefined),
{
    match v {
        Value::Undefined => true,
        _ => false,
    }
}

/// A structurally equal copy; views coincide.
pub fn clone_value(v: &Value) -> (r: Value)
    ensures
        r@ == v@,
    decreases *v,
{
    match v {
        Value::Null => Value::Null,
        Value::Bool(b) => Value::Bool(*b),
        Value::Num(m) => Value::Num(*m),
        Value::Text(s) => Value::Text(s.clone()),
        Value::Arr(items) => {
            let out = clone_vec(items);
            let r = Value::Arr(out);
            proof {
                assert(seq_view(out@) =~= seq_view(items@));
            }
            r
        },
        Value::Obj(entries) => {
            let out = clone_kvs(entries);
            let r = Value::Obj(out);
            proof {
                assert(kvs_view(out@) =~= kvs_view(entries@));
            }
            r
        },
        Value::SetV(items) => {
            let out = clone_vec(items);
            let r = Value::SetV(out);
            proof {
                assert(seq_view(out@) =~= seq_view(items@));
            }
            r
        },
        Value::Undefined => Value::Undefined,
    }
}

fn clone_vec(items: &Vec<Value>) -> (out: Vec<Value>)
    ensures
        out@.len() == items@.len(),
        forall|j: int| 0 <= j < items@.len() ==> view_of(#[trigger] out@[j]) == view_of(items@[j]),
    decreases *items,
{
    let mut out: Vec<Value> = Vec::new();
    let n = items.len();
    let mut i: usize = 0;
    while i < n
        invariant
            n == items@.len(),
            i <= n,
            out@.len() == i,
            forall|j: int|
                0 <= j < i ==> view_of(#[trigger] out@[j]) == view_of(items@[j]),
        decreases n - i,
    {
        let c = clone_value(&items[i]);
        out.push(c);
        i = i + 1;
    }
    out
}

fn clone_kvs(entries: &Vec<(Value, Value)>) -> (out: Vec<(Value, Value)>)
    ensures
        out@.len() == entries@.len(),
        forall|j: int|
            0 <= j < entries@.len() ==> view_of(#[trigger] out@[j].0) == view_of(entries@[j].0)
                && view_of(out@[j].1) == view_of(entries@[j].1),
    decreases *entries,
{
    let mut out: Vec<(Value, Value)> = Vec::new();
    let n = entries.len();
    let mut i: usize = 0;
    while i < n
        invariant
            n == entries@.len(),
            i <= n,
            out@.len() == i,
            forall|j: int|
                0 <= j < i ==> view_of(#[trigger] out@[j].0) == view_of(entries@[j].0)
                    && view_of(out@[j].1) == view_of(entries@[j].1),
        decreases n - i,
    {
        let k = clone_value(&entries[i].0);
        let v = clone_value(&entries[i].1);
        out.push((k, v));
        i = i + 1;
    }
    out
}

// ------------------------------------------------------------------
// Executable comparison
// ------------------------------------------------------------------

/// Elementwise well-formedness carries from exec elements to the viewed sequence.
pub proof fn lemma_seq_view_wf_rev(items: Seq<Value>)
    requires
        forall|j: int| 0 <= j < items.len() ==> wf_val(view_of(#[trigger] items[j])),
    ensures
        all_wf(seq_view(items)),
{
    let s = seq_view(items);
    assert forall|j: int| 0 <= j < s.len() implies wf_val(#[trigger] s[j]) by {
        assert(s[j] == view_of(items[j]));
        assert(wf_val(view_of(items[j])));
    }
}

/// Elementwise well-formedness carries from a viewed sequence to its elements.
pub proof fn lemma_seq_view_wf(items: Seq<Value>)
    requires
        all_wf(seq_view(items)),
    ensures
        forall|j: int| 0 <= j < items.len() ==> wf_val(view_of(#[trigger] items[j])),
{
    let s = seq_view(items);
    assert(s.len() == items.len());
    assert forall|j: int| 0 <= j < items.len() implies wf_val(view_of(#[trigger] items[j])) by {
        assert(s[j] == view_of(items[j]));
        assert(wf_val(s[j]));
    }
}

pub proof fn lemma_kvs_view_wf(entries: Seq<(Value, Value)>)
    requires
        all_wf_kvs(kvs_view(entries)),
    ensures
        forall|j: int|
            0 <= j < entries.len() ==> wf_val(view_of(#[trigger] entries[j].0)) && wf_val(
                view_of(entries[j].1),
            ),
{
    let s = kvs_view(entries);
    assert(s.len() == entries.len());
    assert forall|j: int|
        0 <= j < entries.len() implies wf_val(view_of(#[trigger] entries[j].0)) && wf_val(
        view_of(entries[j].1),
    ) by {
        assert(s[j] == (view_of(entries[j].0), view_of(entries[j].1)));
        assert(wf_val(s[j].0) && wf_val(s[j].1));
    }
}

fn kind_rank(v: &Value) -> (r: u8)
    ensures
        r == rank(v@),
{
    match v {
        Value::Null => 0,
        Value::Bool(_) => 1,
        Value::Num(_) => 2,
        Value::Text(_) => 3,
        Value::Arr(_) => 4,
        Value::Obj(_) => 5,
        Value::SetV(_) => 6,
        Value::Undefined => 7,
    }
}

/// Three-way comparison of two well-formed values.
pub fn value_cmp(a: &Value, b: &Value) -> (o: i8)
    requires
        wf_val(a@),
        wf_val(b@),
    ensures
        o as int == cmp_vals(a@, b@),
    decreases *a, 0int,
{
    let ra = kind_rank(a);
    let rb = kind_rank(b);
    if ra < rb {
        return -1;
    }
    if ra > rb {
        return 1;
    }
    match (a, b) {
        (Value::Null, Value::Null) => 0,
        (Value::Undefined, Value::Undefined) => 0,
        (Value::Bool(x), Value::Bool(y)) => {
            if *x == *y {
                0
            } else if *y {
                -1
            } else {
                1
            }
        },
        (Value::Num(x), Value::Num(y)) => {
            proof {
                lemma_prod_bounds(x.num as int, y.den as int);
                lemma_prod_bounds(y.num as int, x.den as int);
            }
            let p1 = (x.num as i128) * (y.den as i128);
            let p2 = (y.num as i128) * (x.den as i128);
            if p1 < p2 {
                -1
            } else if p1 > p2 {
                1
            } else {
                0
            }
        },
        (Value::Text(x), Value::Text(y)) => cmp_strings(x, y),
        (Value::Arr(x), Value::Arr(y)) => {
            proof {
                assert(a@ == SpecValue::Arr(seq_view(x@)));
                assert(b@ == SpecValue::Arr(seq_view(y@)));
                lemma_wf_arr(seq_view(x@));
                lemma_wf_arr(seq_view(y@));
                lemma_seq_view_wf(x@);
                lemma_seq_view_wf(y@);
            }
            cmp_vec_values(x, y)
        },
        (Value::Obj(x), Value::Obj(y)) => {
            proof {
                assert(a@ == SpecValue::Obj(kvs_view(x@)));
                assert(b@ == SpecValue::Obj(kvs_view(y@)));
                lemma_wf_obj(kvs_view(x@));
                lemma_wf_obj(kvs_view(y@));
                lemma_kvs_view_wf(x@);
                lemma_kvs_view_wf(y@);
            }
            cmp_vec_kvs(x, y)
        },
        (Value::SetV(x), Value::SetV(y)) => {
            proof {
                assert(a@ == SpecValue::SetV(seq_view(x@)));
                assert(b@ == SpecValue::SetV(seq_view(y@)));
                lemma_wf_set(seq_view(x@));
                lemma_wf_set(seq_view(y@));
                lemma_seq_view_wf(x@);
                lemma_seq_view_wf(y@);
            }
            cmp_vec_values(x, y)
        },
        _ => {
            proof {
                assert(false);
            }
            0
        },
    }
}

fn cmp_strings(x: &String, y: &String) -> (o: i8)
    ensures
        o as int == cmp_chars(x@, y@, 0),
{
    let xs = x.as_str();
    let ys = y.as_str();
    let nx = xs.unicode_len();
    let ny = ys.unicode_len();
    let mut i: usize = 0;
    loop
        invariant
            i <= nx,
            i <= ny,
            nx == x@.len(),
            ny == y@.len(),
            xs@ == x@,
            ys@ == y@,
            cmp_chars(x@, y@, 0) == cmp_chars(x@, y@, i as nat),
        decreases nx - i,
    {
        if i < nx && i < ny {
            let cx = xs.get_char(i);
            let cy = ys.get_char(i);
            if (cx as u32) < (cy as u32) {
                return -1;
            } else if (cx as u32) > (cy as u32) {
                return 1;
            }
            i = i + 1;
        } else if i >= nx && i >= ny {
            return 0;
        } else if i >= nx {
            return -1;
        } else {
            return 1;
        }
    }
}

fn cmp_vec_values(x: &Vec<Value>, y: &Vec<Value>) -> (o: i8)
    requires
        forall|j: int| 0 <= j < x@.len() ==> wf_val(view_of(#[trigger] x@[j])),
        forall|j: int| 0 <= j < y@.len() ==> wf_val(view_of(#[trigger] y@[j])),
    ensures
        o as int == cmp_seqs(seq_view(x@), seq_view(y@), 0),
    decreases *x, 1int,
{
    let nx = x.len();
    let ny = y.len();
    let mut i: usize = 0;
    loop
        invariant
            i <= nx,
            i <= ny,
            nx == x@.len(),
            ny == y@.len(),
            forall|j: int| 0 <= j < x@.len() ==> wf_val(view_of(#[trigger] x@[j])),
            forall|j: int| 0 <= j < y@.len() ==> wf_val(view_of(#[trigger] y@[j])),
            cmp_seqs(seq_view(x@), seq_view(y@), 0) == cmp_seqs(seq_view(x@), seq_view(y@), i as nat),
        decreases nx - i,
    {
        if i < nx && i < ny {
            let c = value_cmp(&x[i], &y[i]);
            if c != 0 {
                return c;
            }
            i = i + 1;
        } else if i >= nx && i >= ny {
            return 0;
        } else if i >= nx {
            return -1;
        } else {
            return 1;
        }
    }
}

fn cmp_vec_kvs(x: &Vec<(Value, Value)>, y: &Vec<(Value, Value)>) -> (o: i8)
    requires
        forall|j: int|
            0 <= j < x@.len() ==> wf_val(view_of(#[trigger] x@[j].0)) && wf_val(view_of(x@[j].1)),
        forall|j: int|
            0 <= j < y@.len() ==> wf_val(view_of(#[trigger] y@[j].0)) && wf_val(view_of(y@[j].1)),
    ensures
        o as int == cmp_kvs(kvs_view(x@), kvs_view(y@), 0),
    decreases *x, 1int,
{
    let nx = x.len();
    let ny = y.len();
    let mut i: usize = 0;
    loop
        invariant
            i <= nx,
            i <= ny,
            nx == x@.len(),
            ny == y@.len(),
            forall|j: int|
                0 <= j < x@.len() ==> wf_val(view_of(#[trigger] x@[j].0)) && wf_val(
                    view_of(x@[j].1),
                ),
            forall|j: int|
                0 <= j < y@.len() ==> wf_val(view_of(#[trigger] y@[j].0)) && wf_val(
                    view_of(y@[j].1),
                ),
            cmp_kvs(kvs_view(x@), kvs_view(y@), 0) == cmp_kvs(kvs_view(x@), kvs_view(y@), i as nat),
        decreases nx - i,
    {
        if i < nx && i < ny {
            let ck = value_cmp(&x[i].0, &y[i].0);
            if ck != 0 {
                return ck;
            }
            let cv = value_cmp(&x[i].1, &y[i].1);
            if cv != 0 {
                return cv;
            }
            i = i + 1;
        } else if i >= nx && i >= ny {
            return 0;
        } else if i >= nx {
            return -1;
        } else {
            return 1;
        }
    }
}

// ------------------------------------------------------------------
// Order lemmas
// ------------------------------------------------------------------

/// Comparison is antisymmetric: swapping the arguments flips the sign.
pub proof fn lemma_cmp_flip(a: SpecValue, b: SpecValue)
    ensures
        cmp_vals(b, a) == -cmp_vals(a, b),
    decreases a, 0int, 0int,
{
    if rank(a) == rank(b) {
        match (a, b) {
            (SpecValue::Text(x), SpecValue::Text(y)) => {
                lemma_cmp_chars_flip(x, y, 0);
            },
            (SpecValue::Arr(x), SpecValue::Arr(y)) => {
                lemma_cmp_seqs_flip(x, y, 0);
            },
            (SpecValue::Obj(x), SpecValue::Obj(y)) => {
                lemma_cmp_kvs_flip(x, y, 0);
            },
            (SpecValue::SetV(x), SpecValue::SetV(y)) => {
                lemma_cmp_seqs_flip(x, y, 0);
            },
            _ => {},
        }
    }
}

proof fn lemma_cmp_chars_flip(x: Seq<char>, y: Seq<char>, i: nat)
    ensures
        cmp_chars(y, x, i) == -cmp_chars(x, y, i),
    decreases x.len() - i,
{
    if i < x.len() && i < y.len() && (x[i as int] as u32) == (y[i as int] as u32) {
        lemma_cmp_chars_flip(x, y, i + 1);
    }
}

proof fn lemma_cmp_seqs_flip(x: Seq<SpecValue>, y: Seq<SpecValue>, i: nat)
    ensures
        cmp_seqs(y, x, i) == -cmp_seqs(x, y, i),
    decreases x, 1int, x.len() - i,
{
    if i < x.len() && i < y.len() {
        lemma_cmp_flip(x[i as int], y[i as int]);
        if cmp_vals(x[i as int], y[i as int]) == 0 {
            lemma_cmp_seqs_flip(x, y, i + 1);
        }
    }
}

proof fn lemma_cmp_kvs_flip(x: Seq<(SpecValue, SpecValue)>, y: Seq<(SpecValue, SpecValue)>, i: nat)
    ensures
        cmp_kvs(y, x, i) == -cmp_kvs(x, y, i),
    decreases x, 1int, x.len() - i,
{
    if i < x.len() && i < y.len() {
        lemma_cmp_flip(x[i as int].0, y[i as int].0);
        if cmp_vals(x[i as int].0, y[i as int].0) == 0 {
            lemma_cmp_flip(x[i as int].1, y[i as int].1);
            if cmp_vals(x[i as int].1, y[i as int].1) == 0 {
                lemma_cmp_kvs_flip(x, y, i + 1);
            }
        }
    }
}

/// Comparison is reflexive: every value compares equal to itself.
pub proof fn lemma_cmp_self(a: SpecValue)
    ensures
        cmp_vals(a, a) == 0,
    decreases a, 0int, 0int,
{
    match a {
        SpecValue::Text(x) => {
            lemma_cmp_chars_self(x, 0);
        },
        SpecValue::Arr(x) => {
            lemma_cmp_seqs_self(x, 0);
        },
        SpecValue::Obj(x) => {
            lemma_cmp_kvs_self(x, 0);
        },
        SpecValue::SetV(x) => {
            lemma_cmp_seqs_self(x, 0);
        },
        _ => {},
    }
}

proof fn lemma_cmp_chars_self(x: Seq<char>, i: nat)
    ensures
        cmp_chars(x, x, i) == 0,
    decreases x.len() - i,
{
    if i < x.len() {
        lemma_cmp_chars_self(x, i + 1);
    }
}

proof fn lemma_cmp_seqs_self(x: Seq<SpecValue>, i: nat)
    ensures
        cmp_seqs(x, x, i) == 0,
    decreases x, 1int, x.len() - i,
{
    if i < x.len() {
        lemma_cmp_self(x[i as int]);
        lemma_cmp_seqs_self(x, i + 1);
    }
}

proof fn lemma_cmp_kvs_self(x: Seq<(SpecValue, SpecValue)>, i: nat)
    ensures
        cmp_kvs(x, x, i) == 0,
    decreases x, 1int, x.len() - i,
{
    if i < x.len() {
        lemma_cmp_self(x[i as int].0);
        lemma_cmp_self(x[i as int].1);
        lemma_cmp_kvs_self(x, i + 1);
    }
}

/// Comparison is transitive over well-formed values, in every sign
/// combination; with reflexivity and antisymmetry it is a total order.
pub proof fn lemma_cmp_trans(a: SpecValue, b: SpecValue, c: SpecValue)
    requires
        wf_val(a),
        wf_val(b),
        wf_val(c),
    ensures
        cmp_vals(a, b) == 0 && cmp_vals(b, c) == 0 ==> cmp_vals(a, c) == 0,
        cmp_vals(a, b) <= 0 && cmp_vals(b, c) <= 0 ==> cmp_vals(a, c) <= 0,
        cmp_vals(a, b) < 0 && cmp_vals(b, c) <= 0 ==> cmp_vals(a, c) < 0,
        cmp_vals(a, b) <= 0 && cmp_vals(b, c) < 0 ==> cmp_vals(a, c) < 0,
        cmp_vals(a, b) >= 0 && cmp_vals(b, c) >= 0 ==> cmp_vals(a, c) >= 0,
        cmp_vals(a, b) > 0 && cmp_vals(b, c) >= 0 ==> cmp_vals(a, c) > 0,
        cmp_vals(a, b) >= 0 && cmp_vals(b, c) > 0 ==> cmp_vals(a, c) > 0,
    decreases a, 0int, 0int,
{
    if rank(a) == rank(b) && rank(b) == rank(c) {
        match (a, b, c) {
            (SpecValue::Num { n: n1, d: d1 }, SpecValue::Num { n: n2, d: d2 }, SpecValue::Num {
                n: n3,
                d: d3,
            }) => {
                lemma_rat_le_trans(n1, d1, n2, d2, n3, d3);
            },
            (SpecValue::Text(x), SpecValue::Text(y), SpecValue::Text(z)) => {
                lemma_cmp_chars_trans(x, y, z, 0);
            },
            (SpecValue::Arr(x), SpecValue::Arr(y), SpecValue::Arr(z)) => {
                lemma_wf_arr(x);
                lemma_wf_arr(y);
                lemma_wf_arr(z);
                lemma_cmp_seqs_trans(x, y, z, 0);
            },
            (SpecValue::SetV(x), SpecValue::SetV(y), SpecValue::SetV(z)) => {
                lemma_wf_set(x);
                lemma_wf_set(y);
                lemma_wf_set(z);
                lemma_cmp_seqs_trans(x, y, z, 0);
            },
            (SpecValue::Obj(x), SpecValue::Obj(y), SpecValue::Obj(z)) => {
                lemma_wf_obj(x);
                lemma_wf_obj(y);
                lemma_wf_obj(z);
                lemma_cmp_kvs_trans(x, y, z, 0);
            },
            _ => {},
        }
    }
}

/// Transitivity of the rational order under positive denominators.
proof fn lemma_rat_le_trans(n1: int, d1: int, n2: int, d2: int, n3: int, d3: int)
    requires
        d1 >= 1,
        d2 >= 1,
        d3 >= 1,
    ensures
        n1 * d2 == n2 * d1 && n2 * d3 == n3 * d2 ==> n1 * d3 == n3 * d1,
        n1 * d2 <= n2 * d1 && n2 * d3 <= n3 * d2 ==> n1 * d3 <= n3 * d1,
        n1 * d2 < n2 * d1 && n2 * d3 <= n3 * d2 ==> n1 * d3 < n3 * d1,
        n1 * d2 <= n2 * d1 && n2 * d3 < n3 * d2 ==> n1 * d3 < n3 * d1,
        n1 * d2 >= n2 * d1 && n2 * d3 >= n3 * d2 ==> n1 * d3 >= n3 * d1,
        n1 * d2 > n2 * d1 && n2 * d3 >= n3 * d2 ==> n1 * d3 > n3 * d1,
        n1 * d2 >= n2 * d1 && n2 * d3 > n3 * d2 ==> n1 * d3 > n3 * d1,
{
    assert((n1 * d2 == n2 * d1 && n2 * d3 == n3 * d2 ==> n1 * d3 == n3 * d1) && (n1 * d2 <= n2
        * d1 && n2 * d3 <= n3 * d2 ==> n1 * d3 <= n3 * d1) && (n1 * d2 < n2 * d1 && n2 * d3 <= n3
        * d2 ==> n1 * d3 < n3 * d1) && (n1 * d2 <= n2 * d1 && n2 * d3 < n3 * d2 ==> n1 * d3 < n3
        * d1) && (n1 * d2 >= n2 * d1 && n2 * d3 >= n3 * d2 ==> n1 * d3 >= n3 * d1) && (n1 * d2
        > n2 * d1 && n2 * d3 >= n3 * d2 ==> n1 * d3 > n3 * d1) && (n1 * d2 >= n2 * d1 && n2 * d3
        > n3 * d2 ==> n1 * d3 > n3 * d1)) by (nonlinear_arith)
        requires
            d1 >= 1,
            d2 >= 1,
            d3 >= 1,
    ;
}

proof fn lemma_cmp_chars_trans(x: Seq<char>, y: Seq<char>, z: Seq<char>, i: nat)
    ensures
        cmp_chars(x, y, i) == 0 && cmp_chars(y, z, i) == 0 ==> cmp_chars(x, z, i) == 0,
        cmp_chars(x, y, i) <= 0 && cmp_chars(y, z, i) <= 0 ==> cmp_chars(x, z, i) <= 0,
        cmp_chars(x, y, i) < 0 && cmp_chars(y, z, i) <= 0 ==> cmp_chars(x, z, i) < 0,
        cmp_chars(x, y, i) <= 0 && cmp_chars(y, z, i) < 0 ==> cmp_chars(x, z, i) < 0,
        cmp_chars(x, y, i) >= 0 && cmp_chars(y, z, i) >= 0 ==> cmp_chars(x, z, i) >= 0,
        cmp_chars(x, y, i) > 0 && cmp_chars(y, z, i) >= 0 ==> cmp_chars(x, z, i) > 0,
        cmp_chars(x, y, i) >= 0 && cmp_chars(y, z, i) > 0 ==> cmp_chars(x, z, i) > 0,
    decreases x.len() - i,
{
    if i < x.len() {
        lemma_cmp_chars_trans(x, y, z, i + 1);
    }
}

proof fn lemma_cmp_seqs_trans(x: Seq<SpecValue>, y: Seq<SpecValue>, z: Seq<SpecValue>, i: nat)
    requires
        all_wf(x),
        all_wf(y),
        all_wf(z),
    ensures
        cmp_seqs(x, y, i) == 0 && cmp_seqs(y, z, i) == 0 ==> cmp_seqs(x, z, i) == 0,
        cmp_seqs(x, y, i) <= 0 && cmp_seqs(y, z, i) <= 0 ==> cmp_seqs(x, z, i) <= 0,
        cmp_seqs(x, y, i) < 0 && cmp_seqs(y, z, i) <= 0 ==> cmp_seqs(x, z, i) < 0,
        cmp_seqs(x, y, i) <= 0 && cmp_seqs(y, z, i) < 0 ==> cmp_seqs(x, z, i) < 0,
        cmp_seqs(x, y, i) >= 0 && cmp_seqs(y, z, i) >= 0 ==> cmp_seqs(x, z, i) >= 0,
        cmp_seqs(x, y, i) > 0 && cmp_seqs(y, z, i) >= 0 ==> cmp_seqs(x, z, i) > 0,
        cmp_seqs(x, y, i) >= 0 && cmp_seqs(y, z, i) > 0 ==> cmp_seqs(x, z, i) > 0,
    decreases x, 1int, x.len() - i,
{
    if i < x.len() {
        if i < y.len() && i < z.len() {
            lemma_cmp_trans(x[i as int], y[i as int], z[i as int]);
        }
        lemma_cmp_seqs_trans(x, y, z, i + 1);
    }
}

proof fn lemma_cmp_kvs_trans(
    x: Seq<(SpecValue, SpecValue)>,
    y: Seq<(SpecValue, SpecValue)>,
    z: Seq<(SpecValue, SpecValue)>,
    i: nat,
)
    requires
        all_wf_kvs(x),
        all_wf_kvs(y),
        all_wf_kvs(z),
    ensures
        cmp_kvs(x, y, i) == 0 && cmp_kvs(y, z, i) == 0 ==> cmp_kvs(x, z, i) == 0,
        cmp_kvs(x, y, i) <= 0 && cmp_kvs(y, z, i) <= 0 ==> cmp_kvs(x, z, i) <= 0,
        cmp_kvs(x, y, i) < 0 && cmp_kvs(y, z, i) <= 0 ==> cmp_kvs(x, z, i) < 0,
        cmp_kvs(x, y, i) <= 0 && cmp_kvs(y, z, i) < 0 ==> cmp_kvs(x, z, i) < 0,
        cmp_kvs(x, y, i) >= 0 && cmp_kvs(y, z, i) >= 0 ==> cmp_kvs(x, z, i) >= 0,
        cmp_kvs(x, y, i) > 0 && cmp_kvs(y, z, i) >= 0 ==> cmp_kvs(x, z, i) > 0,
        cmp_kvs(x, y, i) >= 0 && cmp_kvs(y, z, i) > 0 ==> cmp_kvs(x, z, i) > 0,
    decreases x, 1int, x.len() - i,
{
    if i < x.len() {
        if i < y.len() && i < z.len() {
            lemma_cmp_trans(x[i as int].0, y[i as int].0, z[i as int].0);
            lemma_cmp_trans(x[i as int].1, y[i as int].1, z[i as int].1);
        }
        lemma_cmp_kvs_trans(x, y, z, i + 1);
    }
}

/// In a well-formed set the elements ascend globally, not just at
/// neighbours: every pair of positions is strictly ordered, so no two
/// elements compare equal.
pub proof fn lemma_set_elems_ascend(s: Seq<SpecValue>, i: int, j: int)
    requires
        wf_val(SpecValue::SetV(s)),
        0 <= i < j < s.len(),
    ensures
        cmp_vals(s[i], s[j]) < 0,
    decreases j - i,
{
    lemma_wf_set(s);
    if i + 1 < j {
        lemma_set_elems_ascend(s, i + 1, j);
        lemma_cmp_trans(s[i], s[i + 1], s[j]);
    }
}

/// In a well-formed object the keys ascend globally: every pair of
/// positions holds strictly ordered keys, so keys are unique.
pub proof fn lemma_obj_keys_ascend(s: Seq<(SpecValue, SpecValue)>, i: int, j: int)
    requires
        wf_val(SpecValue::Obj(s)),
        0 <= i < j < s.len(),
    ensures
        cmp_vals(s[i].0, s[j].0) < 0,
    decreases j - i,
{
    lemma_wf_obj(s);
    if i + 1 < j {
        lemma_obj_keys_ascend(s, i + 1, j);
        lemma_cmp_trans(s[i].0, s[i + 1].0, s[j].0);
    }
}

/// Decide well-formedness at run time: positive denominators throughout
/// and strictly ascending container entries.
pub fn value_is_wf(v: &Value) -> (r: bool)
    ensures
        r == wf_val(v@),
    decreases *v, 1int,
{
    match v {
        Value::Null => true,
        Value::Bool(_) => true,
        Value::Text(_) => true,
        Value::Undefined => true,
        Value::Num(m) => m.den >= 1,
        Value::Arr(items) => {
            proof {
                lemma_wf_arr(seq_view(items@));
            }
            elems_are_wf(items)
        },
        Value::Obj(entries) => {
            proof {
                lemma_wf_obj(kvs_view(entries@));
            }
            if !kvs_are_wf(entries) {
                return false;
            }
            kvs_are_ascending(entries)
        },
        Value::SetV(items) => {
            proof {
                lemma_wf_set(seq_view(items@));
            }
            if !elems_are_wf(items) {
                return false;
            }
            elems_are_ascending(items)
        },
    }
}

fn elems_are_wf(items: &Vec<Value>) -> (r: bool)
    ensures
        r == all_wf(seq_view(items@)),
    decreases *items, 0int,
{
    let n = items.len();
    let mut i: usize = 0;
    while i < n
        invariant
            i <= n,
            n == items@.len(),
            forall|j: int| 0 <= j < i ==> wf_val(#[trigger] seq_view(items@)[j]),
        decreases n - i,
    {
        proof {
            assert(seq_view(items@)[i as int] == view_of(items@[i as int]));
        }
        if !value_is_wf(&items[i]) {
            proof {
                assert(!wf_val(seq_view(items@)[i as int]));
            }
            return false;
        }
        i = i + 1;
    }
    true
}

fn kvs_are_wf(entries: &Vec<(Value, Value)>) -> (r: bool)
    ensures
        r == all_wf_kvs(kvs_view(entries@)),
    decreases *entries, 0int,
{
    let n = entries.len();
    let mut i: usize = 0;
    while i < n
        invariant
            i <= n,
            n == entries@.len(),
            forall|j: int|
                0 <= j < i ==> wf_val(#[trigger] kvs_view(entries@)[j].0) && wf_val(
                    kvs_view(entries@)[j].1,
                ),
        decreases n - i,
    {
        proof {
            assert(kvs_view(entries@)[i as int] == (
                view_of(entries@[i as int].0),
                view_of(entries@[i as int].1),
            ));
        }
        if !value_is_wf(&entries[i].0) {
            proof {
                assert(!wf_val(kvs_view(entries@)[i as int].0));
            }
            return false;
        }
        if !value_is_wf(&entries[i].1) {
            proof {
                assert(!all_wf_kvs(kvs_view(entries@))) by {
                    let bad = i as int;
                    assert(0 <= bad < kvs_view(entries@).len());
                    assert(kvs_view(entries@)[bad].0 == view_of(entries@[bad].0));
                    assert(!wf_val(kvs_view(entries@)[bad].1));
                }
            }
            return false;
        }
        proof {
            assert forall|j: int|
                0 <= j < i + 1 implies wf_val(#[trigger] kvs_view(entries@)[j].0) && wf_val(
                kvs_view(entries@)[j].1,
            ) by {
                if j == i as int {
                    assert(kvs_view(entries@)[j] == (
                        view_of(entries@[j].0),
                        view_of(entries@[j].1),
                    ));
                }
            }
        }
        i = i + 1;
    }
    true
}

/// Adjacent keys strictly ascend; call only with well-formed entries.
fn kvs_are_ascending(entries: &Vec<(Value, Value)>) -> (r: bool)
    requires
        all_wf_kvs(kvs_view(entries@)),
    ensures
        r == ascending_keys(kvs_view(entries@)),
{
    proof {
        lemma_kvs_view_wf(entries@);
    }
    let n = entries.len();
    if n == 0 {
        return true;
    }
    let m = n - 1;
    let mut i: usize = 0;
    while i < m
        invariant
            i <= m,
            n >= 1,
            m == n - 1,
            n == entries@.len(),
            all_wf_kvs(kvs_view(entries@)),
            forall|j: int|
                0 <= j < entries@.len() ==> wf_val(view_of(#[trigger] entries@[j].0)) && wf_val(
                    view_of(entries@[j].1),
                ),
            forall|j: int|
                0 <= j < i ==> cmp_vals(#[trigger] kvs_view(entries@)[j].0, kvs_view(entries@)[j
                    + 1].0) < 0,
        decreases n - i,
    {
        proof {
            assert(kvs_view(entries@)[i as int].0 == view_of(entries@[i as int].0));
            assert(kvs_view(entries@)[i as int + 1].0 == view_of(entries@[i as int + 1].0));
        }
        if value_cmp(&entries[i].0, &entries[i + 1].0) >= 0 {
            return false;
        }
        i = i + 1;
    }
    true
}

/// Adjacent elements strictly ascend; call only with well-formed elements.
fn elems_are_ascending(items: &Vec<Value>) -> (r: bool)
    requires
        all_wf(seq_view(items@)),
    ensures
        r == ascending(seq_view(items@)),
{
    proof {
        lemma_seq_view_wf(items@);
    }
    let n = items.len();
    if n == 0 {
        return true;
    }
    let m = n - 1;
    let mut i: usize = 0;
    while i < m
        invariant
            i <= m,
            n >= 1,
            m == n - 1,
            n == items@.len(),
            all_wf(seq_view(items@)),
            forall|j: int| 0 <= j < items@.len() ==> wf_val(view_of(#[trigger] items@[j])),
            forall|j: int|
                0 <= j < i ==> cmp_vals(#[trigger] seq_view(items@)[j], seq_view(items@)[j + 1])
                    < 0,
        decreases n - i,
    {
        proof {
            assert(seq_view(items@)[i as int] == view_of(items@[i as int]));
            assert(seq_view(items@)[i as int + 1] == view_of(items@[i as int + 1]));
        }
        if value_cmp(&items[i], &items[i + 1]) >= 0 {
            return false;
        }
        i = i + 1;
    }
    true
}

/// Equality of two well-formed values, as the total order sees it.
pub fn value_eq(a: &Value, b: &Value) -> (r: bool)
    requires
        wf_val(a@),
        wf_val(b@),
    ensures
        r == (cmp_vals(a@, b@) == 0),
{
    value_cmp(a, b) == 0
}

} // verus!
