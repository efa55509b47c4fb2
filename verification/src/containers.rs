//! Container operations on values: ordered-object insertion and lookup,
//! ordered-set insertion, array push, indexing, containment and count.
//!
//! Objects and sets keep their entries strictly ascending under
//! [`cmp_vals`]; insertion preserves that order, and a key equal (under
//! the total order) to a stored one replaces the stored value.

use vstd::prelude::*;
use crate::value::{
    Value, SpecValue, cmp_vals, wf_val, all_wf, ascending, all_wf_kvs, ascending_keys, seq_view,
    kvs_view, view_of, value_cmp, clone_value, lemma_wf_arr, lemma_wf_obj, lemma_wf_set,
    lemma_cmp_flip, lemma_seq_view_wf, lemma_kvs_view_wf,
};
use crate::number::Number;

verus! {

broadcast use vstd::group_vstd_default;

// ------------------------------------------------------------------
// Searching
// ------------------------------------------------------------------

/// Index of the first entry whose key compares equal to `k`, from `i` on; -1 if none.
pub open spec fn find_key(s: Seq<(SpecValue, SpecValue)>, k: SpecValue, i: nat) -> int
    decreases s.len() - i,
{
    if i < s.len() {
        if cmp_vals(s[i as int].0, k) == 0 {
            i as int
        } else {
            find_key(s, k, i + 1)
        }
    } else {
        -1
    }
}

/// Index of the first entry whose value compares equal to `v`, from `i` on; -1 if none.
pub open spec fn find_val(s: Seq<(SpecValue, SpecValue)>, v: SpecValue, i: nat) -> int
    decreases s.len() - i,
{
    if i < s.len() {
        if cmp_vals(s[i as int].1, v) == 0 {
            i as int
        } else {
            find_val(s, v, i + 1)
        }
    } else {
        -1
    }
}

/// Index of the first element comparing equal to `v`, from `i` on; -1 if none.
pub open spec fn find_elem(s: Seq<SpecValue>, v: SpecValue, i: nat) -> int
    decreases s.len() - i,
{
    if i < s.len() {
        if cmp_vals(s[i as int], v) == 0 {
            i as int
        } else {
            find_elem(s, v, i + 1)
        }
    } else {
        -1
    }
}

/// Index of the first entry whose key compares above `k`, from `i` on; the length if none.
pub open spec fn lower_key(s: Seq<(SpecValue, SpecValue)>, k: SpecValue, i: nat) -> int
    decreases s.len() - i,
{
    if i < s.len() {
        if cmp_vals(s[i as int].0, k) > 0 {
            i as int
        } else {
            lower_key(s, k, i + 1)
        }
    } else {
        s.len() as int
    }
}

/// Index of the first element comparing above `v`, from `i` on; the length if none.
pub open spec fn lower_elem(s: Seq<SpecValue>, v: SpecValue, i: nat) -> int
    decreases s.len() - i,
{
    if i < s.len() {
        if cmp_vals(s[i as int], v) > 0 {
            i as int
        } else {
            lower_elem(s, v, i + 1)
        }
    } else {
        s.len() as int
    }
}

pub proof fn lemma_find_key_char(s: Seq<(SpecValue, SpecValue)>, k: SpecValue, i: nat)
    ensures
        ({
            let f = find_key(s, k, i);
            &&& (f == -1 ==> forall|j: int|
                i <= j < s.len() ==> cmp_vals(#[trigger] s[j].0, k) != 0)
            &&& (f != -1 ==> i <= f < s.len() && cmp_vals(s[f].0, k) == 0 && (forall|j: int|
                i <= j < f ==> cmp_vals(#[trigger] s[j].0, k) != 0))
        }),
    decreases s.len() - i,
{
    if i < s.len() && cmp_vals(s[i as int].0, k) != 0 {
        lemma_find_key_char(s, k, i + 1);
    }
}

pub proof fn lemma_find_val_char(s: Seq<(SpecValue, SpecValue)>, v: SpecValue, i: nat)
    ensures
        ({
            let f = find_val(s, v, i);
            &&& (f == -1 ==> forall|j: int|
                i <= j < s.len() ==> cmp_vals(#[trigger] s[j].1, v) != 0)
            &&& (f != -1 ==> i <= f < s.len() && cmp_vals(s[f].1, v) == 0)
        }),
    decreases s.len() - i,
{
    if i < s.len() && cmp_vals(s[i as int].1, v) != 0 {
        lemma_find_val_char(s, v, i + 1);
    }
}

pub proof fn lemma_find_elem_char(s: Seq<SpecValue>, v: SpecValue, i: nat)
    ensures
        ({
            let f = find_elem(s, v, i);
            &&& (f == -1 ==> forall|j: int| i <= j < s.len() ==> cmp_vals(#[trigger] s[j], v) != 0)
            &&& (f != -1 ==> i <= f < s.len() && cmp_vals(s[f], v) == 0 && (forall|j: int|
                i <= j < f ==> cmp_vals(#[trigger] s[j], v) != 0))
        }),
    decreases s.len() - i,
{
    if i < s.len() && cmp_vals(s[i as int], v) != 0 {
        lemma_find_elem_char(s, v, i + 1);
    }
}

pub proof fn lemma_lower_key_char(s: Seq<(SpecValue, SpecValue)>, k: SpecValue, i: nat)
    requires
        i <= s.len(),
    ensures
        ({
            let p = lower_key(s, k, i);
            &&& i <= p <= s.len()
            &&& (p < s.len() ==> cmp_vals(s[p].0, k) > 0)
            &&& (forall|j: int| i <= j < p ==> cmp_vals(#[trigger] s[j].0, k) <= 0)
        }),
    decreases s.len() - i,
{
    if i < s.len() && cmp_vals(s[i as int].0, k) <= 0 {
        lemma_lower_key_char(s, k, i + 1);
    }
}

pub proof fn lemma_lower_elem_char(s: Seq<SpecValue>, v: SpecValue, i: nat)
    requires
        i <= s.len(),
    ensures
        ({
            let p = lower_elem(s, v, i);
            &&& i <= p <= s.len()
            &&& (p < s.len() ==> cmp_vals(s[p], v) > 0)
            &&& (forall|j: int| i <= j < p ==> cmp_vals(#[trigger] s[j], v) <= 0)
        }),
    decreases s.len() - i,
{
    if i < s.len() && cmp_vals(s[i as int], v) <= 0 {
        lemma_lower_elem_char(s, v, i + 1);
    }
}

// ------------------------------------------------------------------
// Specification of the operations
// ------------------------------------------------------------------

/// The object entries after binding `k` to `v`: replace the value of an
/// equal stored key, or insert before the first greater key.
pub open spec fn obj_updated(s: Seq<(SpecValue, SpecValue)>, k: SpecValue, v: SpecValue) -> Seq<
    (SpecValue, SpecValue),
> {
    let f = find_key(s, k, 0);
    if f != -1 {
        s.update(f, (s[f].0, v))
    } else {
        s.insert(lower_key(s, k, 0), (k, v))
    }
}

/// The set elements after adding `v`: unchanged when an equal element
/// is present, else inserted before the first greater element.
pub open spec fn set_with(s: Seq<SpecValue>, v: SpecValue) -> Seq<SpecValue> {
    if find_elem(s, v, 0) != -1 {
        s
    } else {
        s.insert(lower_elem(s, v, 0), v)
    }
}

/// The value bound to `k` in an object's entries, if any key compares equal.
pub open spec fn obj_get(s: Seq<(SpecValue, SpecValue)>, k: SpecValue) -> Option<SpecValue> {
    let f = find_key(s, k, 0);
    if f != -1 {
        Some(s[f].1)
    } else {
        None
    }
}

/// Indexing an array by a number: the element when the number denotes an
/// index in range, `Undefined` otherwise.
pub open spec fn arr_index_of(s: Seq<SpecValue>, k: SpecValue) -> SpecValue {
    match k {
        SpecValue::Num { n, d } => {
            if d >= 1 && n % d == 0 && 0 <= n / d < s.len() {
                s[n / d]
            } else {
                SpecValue::Undefined
            }
        },
        _ => SpecValue::Undefined,
    }
}

/// `container[key]`: object lookup, array indexing, set membership
/// (yielding the stored element), and `Undefined` in every other case.
/// Indexing never fails.
pub open spec fn spec_index(c: SpecValue, k: SpecValue) -> SpecValue {
    match c {
        SpecValue::Obj(s) => {
            match obj_get(s, k) {
                Some(v) => v,
                None => SpecValue::Undefined,
            }
        },
        SpecValue::Arr(s) => arr_index_of(s, k),
        SpecValue::SetV(s) => {
            let f = find_elem(s, k, 0);
            if f != -1 {
                s[f]
            } else {
                SpecValue::Undefined
            }
        },
        _ => SpecValue::Undefined,
    }
}

/// Containment: an element of a set or array, or a key or a value of an object.
pub open spec fn spec_contains(c: SpecValue, v: SpecValue) -> bool {
    match c {
        SpecValue::SetV(s) => find_elem(s, v, 0) != -1,
        SpecValue::Arr(s) => find_elem(s, v, 0) != -1,
        SpecValue::Obj(s) => find_key(s, v, 0) != -1 || find_val(s, v, 0) != -1,
        _ => false,
    }
}

/// Count: the length of an array, object or set; `Undefined` otherwise.
pub open spec fn spec_count(c: SpecValue) -> SpecValue {
    match c {
        SpecValue::Arr(s) => SpecValue::Num { n: s.len() as int, d: 1 },
        SpecValue::Obj(s) => SpecValue::Num { n: s.len() as int, d: 1 },
        SpecValue::SetV(s) => SpecValue::Num { n: s.len() as int, d: 1 },
        _ => SpecValue::Undefined,
    }
}


// ------------------------------------------------------------------
// Executable searching
// ------------------------------------------------------------------

fn find_key_exec(entries: &Vec<(Value, Value)>, key: &Value) -> (r: Option<usize>)
    requires
        wf_val(SpecValue::Obj(kvs_view(entries@))),
        wf_val(key@),
    ensures
        ({
            let f = find_key(kvs_view(entries@), key@, 0);
            &&& (r matches Some(i) ==> f == i && i < entries@.len())
            &&& (r is None ==> f == -1)
        }),
{
    let ghost v0 = kvs_view(entries@);
    proof {
        lemma_wf_obj(v0);
        lemma_kvs_view_wf(entries@);
    }
    let n = entries.len();
    let mut i: usize = 0;
    while i < n
        invariant
            i <= n,
            n == entries@.len(),
            v0 == kvs_view(entries@),
            wf_val(key@),
            forall|j: int|
                0 <= j < entries@.len() ==> wf_val(view_of(#[trigger] entries@[j].0)) && wf_val(
                    view_of(entries@[j].1),
                ),
            find_key(v0, key@, 0) == find_key(v0, key@, i as nat),
        decreases n - i,
    {
        proof {
            assert(v0[i as int] == (view_of(entries@[i as int].0), view_of(entries@[i as int].1)));
        }
        let c = value_cmp(&entries[i].0, key);
        if c == 0 {
            return Some(i);
        }
        i = i + 1;
    }
    None
}

fn find_val_exec(entries: &Vec<(Value, Value)>, val: &Value) -> (r: bool)
    requires
        wf_val(SpecValue::Obj(kvs_view(entries@))),
        wf_val(val@),
    ensures
        r == (find_val(kvs_view(entries@), val@, 0) != -1),
{
    let ghost v0 = kvs_view(entries@);
    proof {
        lemma_wf_obj(v0);
        lemma_kvs_view_wf(entries@);
    }
    let n = entries.len();
    let mut i: usize = 0;
    while i < n
        invariant
            i <= n,
            n == entries@.len(),
            v0 == kvs_view(entries@),
            wf_val(val@),
            forall|j: int|
                0 <= j < entries@.len() ==> wf_val(view_of(#[trigger] entries@[j].0)) && wf_val(
                    view_of(entries@[j].1),
                ),
            find_val(v0, val@, 0) == find_val(v0, val@, i as nat),
        decreases n - i,
    {
        proof {
            assert(v0[i as int] == (view_of(entries@[i as int].0), view_of(entries@[i as int].1)));
        }
        let c = value_cmp(&entries[i].1, val);
        if c == 0 {
            return true;
        }
        i = i + 1;
    }
    false
}

pub(crate) fn lower_key_scan(entries: &Vec<(Value, Value)>, key: &Value) -> (p: usize)
    requires
        wf_val(SpecValue::Obj(kvs_view(entries@))),
        wf_val(key@),
    ensures
        p == lower_key(kvs_view(entries@), key@, 0),
        p <= entries@.len(),
{
    let ghost v0 = kvs_view(entries@);
    proof {
        lemma_wf_obj(v0);
        lemma_kvs_view_wf(entries@);
    }
    let n = entries.len();
    let mut i: usize = 0;
    while i < n
        invariant
            i <= n,
            n == entries@.len(),
            v0 == kvs_view(entries@),
            wf_val(key@),
            forall|j: int|
                0 <= j < entries@.len() ==> wf_val(view_of(#[trigger] entries@[j].0)) && wf_val(
                    view_of(entries@[j].1),
                ),
            lower_key(v0, key@, 0) == lower_key(v0, key@, i as nat),
        decreases n - i,
    {
        proof {
            assert(v0[i as int] == (view_of(entries@[i as int].0), view_of(entries@[i as int].1)));
        }
        let c = value_cmp(&entries[i].0, key);
        if c > 0 {
            return i;
        }
        i = i + 1;
    }
    n
}

fn find_elem_exec(items: &Vec<Value>, val: &Value, sorted: bool) -> (r: Option<usize>)
    requires
        sorted ==> wf_val(SpecValue::SetV(seq_view(items@))),
        !sorted ==> wf_val(SpecValue::Arr(seq_view(items@))),
        wf_val(val@),
    ensures
        ({
            let f = find_elem(seq_view(items@), val@, 0);
            &&& (r matches Some(i) ==> f == i && i < items@.len())
            &&& (r is None ==> f == -1)
        }),
{
    let ghost v0 = seq_view(items@);
    proof {
        if sorted {
            lemma_wf_set(v0);
        } else {
            lemma_wf_arr(v0);
        }
        lemma_seq_view_wf(items@);
    }
    let n = items.len();
    let mut i: usize = 0;
    while i < n
        invariant
            i <= n,
            n == items@.len(),
            v0 == seq_view(items@),
            wf_val(val@),
            forall|j: int| 0 <= j < items@.len() ==> wf_val(view_of(#[trigger] items@[j])),
            find_elem(v0, val@, 0) == find_elem(v0, val@, i as nat),
        decreases n - i,
    {
        proof {
            assert(v0[i as int] == view_of(items@[i as int]));
        }
        let c = value_cmp(&items[i], val);
        if c == 0 {
            return Some(i);
        }
        i = i + 1;
    }
    None
}

pub(crate) fn lower_elem_scan(items: &Vec<Value>, val: &Value) -> (p: usize)
    requires
        wf_val(SpecValue::SetV(seq_view(items@))),
        wf_val(val@),
    ensures
        p == lower_elem(seq_view(items@), val@, 0),
        p <= items@.len(),
{
    let ghost v0 = seq_view(items@);
    proof {
        lemma_wf_set(v0);
        lemma_seq_view_wf(items@);
    }
    let n = items.len();
    let mut i: usize = 0;
    while i < n
        invariant
            i <= n,
            n == items@.len(),
            v0 == seq_view(items@),
            wf_val(val@),
            forall|j: int| 0 <= j < items@.len() ==> wf_val(view_of(#[trigger] items@[j])),
            lower_elem(v0, val@, 0) == lower_elem(v0, val@, i as nat),
        decreases n - i,
    {
        proof {
            assert(v0[i as int] == view_of(items@[i as int]));
        }
        let c = value_cmp(&items[i], val);
        if c > 0 {
            return i;
        }
        i = i + 1;
    }
    n
}

// ------------------------------------------------------------------
// Executable operations
// ------------------------------------------------------------------

/// Bind `key` to `val` in an object, keeping its keys ascending.
/// A non-object comes back unchanged in the error case.
#[verifier::rlimit(60)]
pub fn obj_inserted(target: Value, key: Value, val: Value) -> (r: Result<Value, Value>)
    requires
        wf_val(target@),
        wf_val(key@),
        wf_val(val@),
    ensures
        target@ is Obj ==> (r matches Ok(o) && o@ == SpecValue::Obj(
            obj_updated(target@->Obj_0, key@, val@),
        ) && wf_val(o@)),
        !(target@ is Obj) ==> (r matches Err(e) && e@ == target@),
{
    match target {
        Value::Obj(mut entries) => {
            let ghost v0 = kvs_view(entries@);
            proof {
                lemma_wf_obj(v0);
                lemma_kvs_view_wf(entries@);
            }
            match find_key_exec(&entries, &key) {
                Some(f) => {
                    proof {
                        lemma_find_key_char(v0, key@, 0);
                        assert(v0[f as int] == (
                            view_of(entries@[f as int].0),
                            view_of(entries@[f as int].1),
                        ));
                    }
                    let k0 = clone_value(&entries[f].0);
                    entries.set(f, (k0, val));
                    let ghost v1 = kvs_view(entries@);
                    proof {
                        assert(v1 =~= v0.update(f as int, (v0[f as int].0, val@)));
                        assert(all_wf_kvs(v1));
                        assert forall|j: int| 0 <= j && j + 1 < v1.len() implies cmp_vals(
                            #[trigger] v1[j].0,
                            v1[j + 1].0,
                        ) < 0 by {
                            assert(v1[j].0 == v0[j].0);
                            assert(v1[j + 1].0 == v0[j + 1].0);
                        }
                        lemma_wf_obj(v1);
                    }
                    Ok(Value::Obj(entries))
                },
                None => {
                    let p = lower_key_scan(&entries, &key);
                    proof {
                        lemma_find_key_char(v0, key@, 0);
                        lemma_lower_key_char(v0, key@, 0);
                    }
                    entries.insert(p, (key, val));
                    let ghost v1 = kvs_view(entries@);
                    proof {
                        let t = (key@, val@);
                        v0.insert_ensures(p as int, t);
                        assert(v1 =~= v0.insert(p as int, t));
                        assert(all_wf_kvs(v1));
                        assert forall|j: int| 0 <= j && j + 1 < v1.len() implies cmp_vals(
                            #[trigger] v1[j].0,
                            v1[j + 1].0,
                        ) < 0 by {
                            if j + 1 < p {
                                assert(v1[j].0 == v0[j].0);
                                assert(v1[j + 1].0 == v0[j + 1].0);
                            } else if j + 1 == p {
                                assert(v1[j].0 == v0[j].0);
                                assert(cmp_vals(v0[j].0, key@) <= 0);
                                assert(cmp_vals(v0[j].0, key@) != 0);
                            } else if j == p {
                                assert(v1[j + 1].0 == v0[j].0);
                                assert(cmp_vals(v0[j].0, key@) > 0);
                                lemma_cmp_flip(v0[j].0, key@);
                            } else {
                                assert(v1[j].0 == v0[j - 1].0);
                                assert(v1[j + 1].0 == v0[j].0);
                            }
                        }
                        lemma_wf_obj(v1);
                    }
                    Ok(Value::Obj(entries))
                },
            }
        },
        other => Err(other),
    }
}

/// Add an element to a set, keeping its elements ascending; an element
/// already present (under the total order) leaves the set unchanged.
#[verifier::rlimit(60)]
pub fn set_added(target: Value, elem: Value) -> (r: Result<Value, Value>)
    requires
        wf_val(target@),
        wf_val(elem@),
    ensures
        target@ is SetV ==> (r matches Ok(o) && o@ == SpecValue::SetV(
            set_with(target@->SetV_0, elem@),
        ) && wf_val(o@)),
        !(target@ is SetV) ==> (r matches Err(e) && e@ == target@),
{
    match target {
        Value::SetV(mut items) => {
            let ghost v0 = seq_view(items@);
            proof {
                lemma_wf_set(v0);
                lemma_seq_view_wf(items@);
            }
            match find_elem_exec(&items, &elem, true) {
                Some(_) => Ok(Value::SetV(items)),
                None => {
                    let p = lower_elem_scan(&items, &elem);
                    proof {
                        lemma_find_elem_char(v0, elem@, 0);
                        lemma_lower_elem_char(v0, elem@, 0);
                    }
                    items.insert(p, elem);
                    let ghost v1 = seq_view(items@);
                    proof {
                        v0.insert_ensures(p as int, elem@);
                        assert(v1 =~= v0.insert(p as int, elem@));
                        assert(all_wf(v1));
                        assert forall|j: int| 0 <= j && j + 1 < v1.len() implies cmp_vals(
                            #[trigger] v1[j],
                            v1[j + 1],
                        ) < 0 by {
                            if j + 1 < p {
                                assert(v1[j] == v0[j]);
                                assert(v1[j + 1] == v0[j + 1]);
                            } else if j + 1 == p {
                                assert(v1[j] == v0[j]);
                                assert(cmp_vals(v0[j], elem@) <= 0);
                                assert(cmp_vals(v0[j], elem@) != 0);
                            } else if j == p {
                                assert(v1[j + 1] == v0[j]);
                                assert(cmp_vals(v0[j], elem@) > 0);
                                lemma_cmp_flip(v0[j], elem@);
                            } else {
                                assert(v1[j] == v0[j - 1]);
                                assert(v1[j + 1] == v0[j]);
                            }
                        }
                        lemma_wf_set(v1);
                    }
                    Ok(Value::SetV(items))
                },
            }
        },
        other => Err(other),
    }
}

/// Append an element to an array. A non-array comes back unchanged.
pub fn arr_pushed(target: Value, elem: Value) -> (r: Result<Value, Value>)
    requires
        wf_val(target@),
        wf_val(elem@),
    ensures
        target@ is Arr ==> (r matches Ok(o) && o@ == SpecValue::Arr(
            target@->Arr_0.push(elem@),
        ) && wf_val(o@)),
        !(target@ is Arr) ==> (r matches Err(e) && e@ == target@),
{
    match target {
        Value::Arr(mut items) => {
            let ghost v0 = seq_view(items@);
            proof {
                lemma_wf_arr(v0);
            }
            items.push(elem);
            let ghost v1 = seq_view(items@);
            proof {
                assert(v1 =~= v0.push(elem@));
                assert(all_wf(v1));
                lemma_wf_arr(v1);
            }
            Ok(Value::Arr(items))
        },
        other => Err(other),
    }
}

/// `container[key]`, exactly as [`spec_index`] describes it; never fails.
pub fn value_index(c: &Value, k: &Value) -> (r: Value)
    requires
        wf_val(c@),
        wf_val(k@),
    ensures
        r@ == spec_index(c@, k@),
        wf_val(r@),
{
    match c {
        Value::Obj(entries) => {
            let ghost v0 = kvs_view(entries@);
            proof {
                lemma_wf_obj(v0);
                lemma_kvs_view_wf(entries@);
            }
            match find_key_exec(entries, k) {
                Some(f) => {
                    proof {
                        lemma_find_key_char(v0, k@, 0);
                        assert(v0[f as int] == (
                            view_of(entries@[f as int].0),
                            view_of(entries@[f as int].1),
                        ));
                    }
                    clone_value(&entries[f].1)
                },
                None => Value::Undefined,
            }
        },
        Value::Arr(items) => {
            let ghost v0 = seq_view(items@);
            proof {
                lemma_wf_arr(v0);
                lemma_seq_view_wf(items@);
            }
            match k {
                Value::Num(m) => {
                    if m.is_integer() {
                        let v = crate::number::exact_int_value(m);
                        if v >= 0 && (v as u128) < (items.len() as u128) {
                            let idx = v as usize;
                            proof {
                                assert(v0[idx as int] == view_of(items@[idx as int]));
                            }
                            clone_value(&items[idx])
                        } else {
                            Value::Undefined
                        }
                    } else {
                        Value::Undefined
                    }
                },
                _ => Value::Undefined,
            }
        },
        Value::SetV(items) => {
            let ghost v0 = seq_view(items@);
            proof {
                lemma_wf_set(v0);
                lemma_seq_view_wf(items@);
            }
            match find_elem_exec(items, k, true) {
                Some(f) => {
                    proof {
                        lemma_find_elem_char(v0, k@, 0);
                        assert(v0[f as int] == view_of(items@[f as int]));
                    }
                    clone_value(&items[f])
                },
                None => Value::Undefined,
            }
        },
        _ => Value::Undefined,
    }
}

/// Containment, exactly as [`spec_contains`] describes it.
pub fn value_contains(c: &Value, v: &Value) -> (r: bool)
    requires
        wf_val(c@),
        wf_val(v@),
    ensures
        r == spec_contains(c@, v@),
{
    match c {
        Value::SetV(items) => find_elem_exec(items, v, true).is_some(),
        Value::Arr(items) => find_elem_exec(items, v, false).is_some(),
        Value::Obj(entries) => {
            let in_keys = find_key_exec(entries, v).is_some();
            if in_keys {
                true
            } else {
                find_val_exec(entries, v)
            }
        },
        _ => false,
    }
}

/// Count: the length of an array, object or set as a number, `Undefined`
/// for anything else. `None` only when the length exceeds `i64::MAX`.
pub fn count_value(c: &Value) -> (r: Option<Value>)
    requires
        wf_val(c@),
    ensures
        r matches Some(v) ==> v@ == spec_count(c@) && wf_val(v@),
        r is None ==> (match c@ {
            SpecValue::Arr(s) => s.len() > i64::MAX,
            SpecValue::Obj(s) => s.len() > i64::MAX,
            SpecValue::SetV(s) => s.len() > i64::MAX,
            _ => false,
        }),
{
    let n: usize = match c {
        Value::Arr(items) => {
            proof {
                assert(c@ == SpecValue::Arr(seq_view(items@)));
            }
            items.len()
        },
        Value::Obj(entries) => {
            proof {
                assert(c@ == SpecValue::Obj(kvs_view(entries@)));
            }
            entries.len()
        },
        Value::SetV(items) => {
            proof {
                assert(c@ == SpecValue::SetV(seq_view(items@)));
            }
            items.len()
        },
        _ => {
            return Some(Value::Undefined);
        },
    };
    if (n as u128) <= i64::MAX as u128 {
        Some(Value::Num(Number { num: n as i64, den: 1 }))
    } else {
        None
    }
}


// ------------------------------------------------------------------
// Laws of insertion, lookup, containment and count
// ------------------------------------------------------------------

/// Adding an element that is not yet present (under the total order)
/// grows a set by exactly one; adding a present one changes nothing.
/// With `spec_count`, building a set from distinct elements therefore
/// counts every one of them.
pub proof fn lemma_set_insert_len(s: Seq<SpecValue>, v: SpecValue)
    requires
        wf_val(SpecValue::SetV(s)),
    ensures
        find_elem(s, v, 0) == -1 ==> set_with(s, v).len() == s.len() + 1,
        find_elem(s, v, 0) != -1 ==> set_with(s, v) == s,
{
    if find_elem(s, v, 0) == -1 {
        crate::value::lemma_wf_set(s);
        lemma_lower_elem_char(s, v, 0);
        s.insert_ensures(lower_elem(s, v, 0), v);
    }
}

/// A set built to contain `v` contains `v`.
pub proof fn lemma_set_insert_contains(s: Seq<SpecValue>, v: SpecValue)
    requires
        wf_val(SpecValue::SetV(s)),
    ensures
        spec_contains(SpecValue::SetV(set_with(s, v)), v),
{
    let s2 = set_with(s, v);
    if find_elem(s, v, 0) == -1 {
        lemma_lower_elem_char(s, v, 0);
        let p = lower_elem(s, v, 0);
        s.insert_ensures(p, v);
        crate::value::lemma_cmp_self(v);
        assert(cmp_vals(s2[p], v) == 0);
        lemma_find_elem_char(s2, v, 0);
    } else {
        lemma_find_elem_char(s, v, 0);
    }
}

/// An array extended with `v` contains `v`.
pub proof fn lemma_arr_push_contains(s: Seq<SpecValue>, v: SpecValue)
    ensures
        spec_contains(SpecValue::Arr(s.push(v)), v),
{
    let s2 = s.push(v);
    crate::value::lemma_cmp_self(v);
    assert(cmp_vals(s2[s.len() as int], v) == 0);
    lemma_find_elem_char(s2, v, 0);
}

/// Binding a key that is not yet present grows an object by exactly
/// one entry; rebinding a present key keeps the entry count.
pub proof fn lemma_obj_insert_len(s: Seq<(SpecValue, SpecValue)>, k: SpecValue, v: SpecValue)
    requires
        wf_val(SpecValue::Obj(s)),
    ensures
        find_key(s, k, 0) == -1 ==> obj_updated(s, k, v).len() == s.len() + 1,
        find_key(s, k, 0) != -1 ==> obj_updated(s, k, v).len() == s.len(),
{
    if find_key(s, k, 0) == -1 {
        lemma_lower_key_char(s, k, 0);
        s.insert_ensures(lower_key(s, k, 0), (k, v));
    } else {
        lemma_find_key_char(s, k, 0);
    }
}

/// After binding `k` to `v`, looking `k` up yields `v`, and the object
/// contains `k` among its keys and `v` among its values.
pub proof fn lemma_obj_insert_get(s: Seq<(SpecValue, SpecValue)>, k: SpecValue, v: SpecValue)
    requires
        wf_val(SpecValue::Obj(s)),
    ensures
        obj_get(obj_updated(s, k, v), k) == Some(v),
        spec_index(SpecValue::Obj(obj_updated(s, k, v)), k) == v,
        spec_contains(SpecValue::Obj(obj_updated(s, k, v)), k),
        spec_contains(SpecValue::Obj(obj_updated(s, k, v)), v),
{
    let s2 = obj_updated(s, k, v);
    let f = find_key(s, k, 0);
    lemma_find_key_char(s, k, 0);
    crate::value::lemma_cmp_self(k);
    crate::value::lemma_cmp_self(v);
    if f != -1 {
        assert(s2 == s.update(f, (s[f].0, v)));
        assert(cmp_vals(s2[f].0, k) == 0);
        lemma_find_key_char(s2, k, 0);
        let f2 = find_key(s2, k, 0);
        assert(f2 != -1);
        assert(f2 <= f) by {
            if f2 > f {
                assert(cmp_vals(s2[f].0, k) != 0);
            }
        }
        assert(f2 >= f) by {
            if f2 < f {
                assert(s2[f2].0 == s[f2].0);
                assert(cmp_vals(s[f2].0, k) != 0);
                assert(cmp_vals(s2[f2].0, k) == 0);
            }
        }
        assert(s2[f].1 == v);
        lemma_find_val_char(s2, v, 0);
        assert(cmp_vals(s2[f].1, v) == 0);
    } else {
        let p = lower_key(s, k, 0);
        lemma_lower_key_char(s, k, 0);
        s.insert_ensures(p, (k, v));
        assert(s2 == s.insert(p, (k, v)));
        assert(s2[p] == (k, v));
        assert(cmp_vals(s2[p].0, k) == 0);
        lemma_find_key_char(s2, k, 0);
        let f2 = find_key(s2, k, 0);
        assert(f2 != -1);
        assert(f2 >= p) by {
            if f2 < p {
                assert(s2[f2].0 == s[f2].0);
                assert(cmp_vals(s[f2].0, k) != 0);
                assert(cmp_vals(s2[f2].0, k) == 0);
            }
        }
        assert(f2 <= p) by {
            if f2 > p {
                assert(cmp_vals(s2[p].0, k) != 0);
            }
        }
        assert(s2[p].1 == v);
        lemma_find_val_char(s2, v, 0);
        assert(cmp_vals(s2[p].1, v) == 0);
    }
}

/// Elements distinct from the added one are present in the grown set
/// exactly when they were present before: set insertion changes no
/// other membership.
pub proof fn lemma_set_insert_preserves(s: Seq<SpecValue>, v: SpecValue, w: SpecValue)
    requires
        wf_val(SpecValue::SetV(s)),
        cmp_vals(w, v) != 0,
    ensures
        spec_contains(SpecValue::SetV(set_with(s, v)), w) == spec_contains(SpecValue::SetV(s), w),
{
    let s2 = set_with(s, v);
    if find_elem(s, v, 0) == -1 {
        let p = lower_elem(s, v, 0);
        lemma_lower_elem_char(s, v, 0);
        s.insert_ensures(p, v);
        lemma_find_elem_char(s, w, 0);
        lemma_find_elem_char(s2, w, 0);
        crate::value::lemma_cmp_flip(w, v);
        if find_elem(s, w, 0) != -1 {
            let fw = find_elem(s, w, 0);
            if fw < p {
                assert(s2[fw] == s[fw]);
                assert(cmp_vals(s2[fw], w) == 0);
            } else {
                assert(s2[fw + 1] == s[fw]);
                assert(cmp_vals(s2[fw + 1], w) == 0);
            }
            if find_elem(s2, w, 0) == -1 {
                assert(false);
            }
        } else {
            if find_elem(s2, w, 0) != -1 {
                let f2 = find_elem(s2, w, 0);
                if f2 < p {
                    assert(s2[f2] == s[f2]);
                    assert(cmp_vals(s[f2], w) != 0);
                } else if f2 == p {
                    assert(s2[p] == v);
                    assert(cmp_vals(v, w) != 0) by {
                        crate::value::lemma_cmp_flip(v, w);
                    }
                } else {
                    assert(s2[f2] == s[f2 - 1]);
                    assert(cmp_vals(s[f2 - 1], w) != 0);
                }
                assert(false);
            }
        }
    }
}


/// Adding an element to a well-formed set keeps it well-formed.
pub proof fn lemma_set_with_wf(s: Seq<SpecValue>, v: SpecValue)
    requires
        wf_val(SpecValue::SetV(s)),
        wf_val(v),
    ensures
        wf_val(SpecValue::SetV(set_with(s, v))),
{
    crate::value::lemma_wf_set(s);
    let s2 = set_with(s, v);
    if find_elem(s, v, 0) == -1 {
        let p = lower_elem(s, v, 0);
        lemma_find_elem_char(s, v, 0);
        lemma_lower_elem_char(s, v, 0);
        s.insert_ensures(p, v);
        assert(all_wf(s2));
        assert forall|j: int| 0 <= j && j + 1 < s2.len() implies cmp_vals(
            #[trigger] s2[j],
            s2[j + 1],
        ) < 0 by {
            if j + 1 < p {
                assert(s2[j] == s[j]);
                assert(s2[j + 1] == s[j + 1]);
            } else if j + 1 == p {
                assert(s2[j] == s[j]);
                assert(cmp_vals(s[j], v) <= 0);
                assert(cmp_vals(s[j], v) != 0);
            } else if j == p {
                assert(s2[j + 1] == s[j]);
                assert(cmp_vals(s[j], v) > 0);
                crate::value::lemma_cmp_flip(s[j], v);
            } else {
                assert(s2[j] == s[j - 1]);
                assert(s2[j + 1] == s[j]);
            }
        }
        crate::value::lemma_wf_set(s2);
    }
}

/// The set grown by adding a run of elements, in order.
pub open spec fn set_from(elems: Seq<SpecValue>, i: nat) -> Seq<SpecValue>
    decreases i,
{
    if i == 0 {
        Seq::<SpecValue>::empty()
    } else {
        set_with(set_from(elems, (i - 1) as nat), elems[i - 1])
    }
}

/// A set built from pairwise-distinct, well-formed elements holds
/// exactly one element per insertion: its count is the number of
/// distinct elements inserted.
pub proof fn lemma_set_from_distinct(elems: Seq<SpecValue>, i: nat)
    requires
        i <= elems.len(),
        forall|j: int| 0 <= j < elems.len() ==> wf_val(#[trigger] elems[j]),
        forall|j: int, k: int|
            0 <= j < k < elems.len() ==> cmp_vals(#[trigger] elems[j], #[trigger] elems[k]) != 0,
    ensures
        wf_val(SpecValue::SetV(set_from(elems, i))),
        set_from(elems, i).len() == i,
        forall|w: SpecValue|
            spec_contains(SpecValue::SetV(set_from(elems, i)), w) ==> exists|j: int|
                0 <= j < i && cmp_vals(#[trigger] elems[j], w) == 0,
    decreases i,
{
    if i == 0 {
        crate::value::lemma_wf_set(set_from(elems, 0));
        assert forall|w: SpecValue|
            spec_contains(SpecValue::SetV(set_from(elems, 0)), w) implies exists|j: int|
            0 <= j < 0 && cmp_vals(#[trigger] elems[j], w) == 0 by {
            lemma_find_elem_char(set_from(elems, 0), w, 0);
        }
    } else {
        let prev = set_from(elems, (i - 1) as nat);
        let e = elems[i - 1];
        lemma_set_from_distinct(elems, (i - 1) as nat);
        lemma_set_with_wf(prev, e);
        // the new element is not yet present: a member equal to it would
        // contradict pairwise distinctness
        assert(find_elem(prev, e, 0) == -1) by {
            if find_elem(prev, e, 0) != -1 {
                assert(spec_contains(SpecValue::SetV(prev), e));
                let j = choose|j: int| 0 <= j < i - 1 && cmp_vals(#[trigger] elems[j], e) == 0;
                assert(cmp_vals(elems[j], elems[i - 1]) != 0);
            }
        }
        lemma_set_insert_len(prev, e);
        let cur = set_from(elems, i);
        assert forall|w: SpecValue|
            spec_contains(SpecValue::SetV(cur), w) implies exists|j: int|
            0 <= j < i && cmp_vals(#[trigger] elems[j], w) == 0 by {
            if cmp_vals(w, e) == 0 {
                crate::value::lemma_cmp_flip(w, e);
                assert(cmp_vals(elems[i - 1], w) == 0);
            } else {
                lemma_set_insert_preserves(prev, e, w);
                assert(spec_contains(SpecValue::SetV(prev), w));
                let j = choose|j: int| 0 <= j < i - 1 && cmp_vals(#[trigger] elems[j], w) == 0;
                assert(cmp_vals(elems[j], w) == 0);
            }
        }
    }
}

} // verus!
