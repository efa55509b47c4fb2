//! Exact rational numbers backed by a 64-bit numerator and denominator.
//!
//! A `Number` stands for the rational `num / den` with `den >= 1`. All
//! arithmetic is exact; an operation whose result cannot be represented
//! after reduction reports failure (`None`), which the dispatcher turns
//! into an arithmetic error.

use vstd::prelude::*;

verus! {

/// A rational number `num / den` with a positive denominator.
#[derive(Debug, Clone, Copy, PartialEq, Eq)]
pub struct Number {
    pub num: i64,
    pub den: u64,
}

/// `n / d` and `vn / vd` denote the same rational (both denominators positive).
pub open spec fn rat_eq(n: int, d: int, vn: int, vd: int) -> bool {
    d > 0 && vd > 0 && n * vd == vn * d
}

/// Truncated remainder (the sign follows the dividend), as `%` acts on machine integers.
pub open spec fn trunc_mod(x: int, y: int) -> int
    recommends
        y != 0,
{
    let m = abs_int(x) % abs_int(y);
    if x < 0 {
        -m
    } else {
        m
    }
}

pub open spec fn abs_int(x: int) -> int {
    if x < 0 {
        -x
    } else {
        x
    }
}

impl Number {
    pub open spec fn wf(self) -> bool {
        self.den >= 1
    }

    /// The number denotes an integer.
    pub open spec fn spec_is_integer(self) -> bool {
        self.num as int % self.den as int == 0
    }

    /// The integer denoted, meaningful when `spec_is_integer()` holds.
    pub open spec fn int_value(self) -> int {
        self.num as int / self.den as int
    }

    pub fn from_i64(n: i64) -> (r: Number)
        ensures
            r.wf(),
            r.num == n,
            r.den == 1,
    {
        Number { num: n, den: 1 }
    }

    pub fn is_integer(&self) -> (r: bool)
        requires
            self.wf(),
        ensures
            r == self.spec_is_integer(),
    {
        let mag = mag_of_i128(self.num as i128);
        let r = mag % (self.den as u128) == 0;
        proof {
            lemma_mag_divisibility(self.num as int, self.den as int);
        }
        r
    }

    pub fn is_zero(&self) -> (r: bool)
        requires
            self.wf(),
        ensures
            r == (self.num == 0),
    {
        self.num == 0
    }
}

/// The magnitude of a signed 128-bit value, as an unsigned one.
fn mag_of_i128(n: i128) -> (m: u128)
    ensures
        m == abs_int(n as int),
{
    if n >= 0 {
        n as u128
    } else {
        ((-(n + 1)) as u128) + 1
    }
}

proof fn lemma_mag_divisibility(n: int, d: int)
    requires
        d >= 1,
    ensures
        (abs_int(n) % d == 0) == (n % d == 0),
{
    if n >= 0 {
    } else {
        vstd::arithmetic::div_mod::lemma_mod_neg_neg(n, d);
        if abs_int(n) % d == 0 {
            let k = (-n) / d;
            vstd::arithmetic::div_mod::lemma_fundamental_div_mod(-n, d);
            assert(-n == d * k);
            assert(n == d * (-k)) by (nonlinear_arith)
                requires
                    -n == d * k,
            ;
            vstd::arithmetic::div_mod::lemma_mod_multiples_basic(-k, d);
        }
        if n % d == 0 {
            let k = n / d;
            vstd::arithmetic::div_mod::lemma_fundamental_div_mod(n, d);
            assert(n == d * k);
            assert(-n == d * (-k)) by (nonlinear_arith)
                requires
                    n == d * k,
            ;
            vstd::arithmetic::div_mod::lemma_mod_multiples_basic(-k, d);
        }
    }
}

/// Greatest common divisor, by Euclid.
pub open spec fn gcd_spec(a: nat, b: nat) -> nat
    decreases b,
{
    if b == 0 {
        a
    } else {
        gcd_spec(b, a % b)
    }
}

/// The canonical reduced form of the rational `n / d`: numerator and
/// denominator divided by their greatest common divisor, the sign on
/// the numerator.
pub open spec fn reduced_of(n: int, d: int) -> (int, int)
    recommends
        d >= 1,
{
    let g = if n == 0 {
        d
    } else {
        gcd_spec(abs_int(n) as nat, d as nat) as int
    };
    (
        if n >= 0 {
            abs_int(n) / g
        } else {
            -(abs_int(n) / g)
        },
        d / g,
    )
}

/// Greatest common divisor by Euclid's algorithm; the result divides both arguments.
fn gcd_u128(a: u128, b: u128) -> (g: u128)
    requires
        a > 0 || b > 0,
    ensures
        g > 0,
        a as int % g as int == 0,
        b as int % g as int == 0,
        g as nat == gcd_spec(a as nat, b as nat),
    decreases b,
{
    if b == 0 {
        proof {
            vstd::arithmetic::div_mod::lemma_mod_self_0(a as int);
            vstd::arithmetic::div_mod::lemma_small_mod(0nat, a as nat);
        }
        a
    } else {
        let r = a % b;
        let g = gcd_u128(b, r);
        proof {
            lemma_divides_mod_sum(a as int, b as int, g as int);
        }
        g
    }
}

/// If `g` divides `b` and `a % b`, then `g` divides `a`.
proof fn lemma_divides_mod_sum(a: int, b: int, g: int)
    requires
        a >= 0,
        b > 0,
        g > 0,
        b % g == 0,
        (a % b) % g == 0,
    ensures
        a % g == 0,
{
    vstd::arithmetic::div_mod::lemma_fundamental_div_mod(a, b);
    vstd::arithmetic::div_mod::lemma_fundamental_div_mod(b, g);
    vstd::arithmetic::div_mod::lemma_fundamental_div_mod(a % b, g);
    let q = a / b;
    let kb = b / g;
    let kr = (a % b) / g;
    assert(a == g * (q * kb + kr)) by (nonlinear_arith)
        requires
            a == b * q + a % b,
            b == g * kb,
            a % b == g * kr,
    ;
    vstd::arithmetic::div_mod::lemma_mod_multiples_basic(q * kb + kr, g);
}

/// Reduce `sign(n) * (n / d)` to a representable `Number` denoting the same
/// rational, or report `None` when even the reduced form does not fit.
pub fn make_number(n: i128, d: u128) -> (r: Option<Number>)
    requires
        d >= 1,
    ensures
        r matches Some(m) ==> m.wf() && rat_eq(m.num as int, m.den as int, n as int, d as int),
        (i64::MIN <= n <= i64::MAX && d <= u64::MAX) ==> r is Some,
        r matches Some(m) ==> (m.num as int, m.den as int) == reduced_of(n as int, d as int),
{
    let neg = n < 0;
    let mag = mag_of_i128(n);
    let g = if mag == 0 { d } else { gcd_u128(mag, d) };
    let mag_r = mag / g;
    let d_r = d / g;
    proof {
        exact_div_facts(mag as int, g as int);
        exact_div_facts(d as int, g as int);
    }
    if d_r > u64::MAX as u128 {
        return None;
    }
    let num: i64 = if neg {
        if mag_r > (i64::MAX as u128) + 1 {
            return None;
        } else if mag_r == (i64::MAX as u128) + 1 {
            i64::MIN
        } else {
            -(mag_r as i64)
        }
    } else {
        if mag_r > i64::MAX as u128 {
            return None;
        } else {
            mag_r as i64
        }
    };
    let m = Number { num, den: d_r as u64 };
    proof {
        assert(num as int * d as int == n as int * d_r as int) by (nonlinear_arith)
            requires
                mag as int == g as int * mag_r as int,
                d as int == g as int * d_r as int,
                g >= 1,
                d_r >= 1,
                (neg ==> num as int == -(mag_r as int) && n as int == -(mag as int)),
                (!neg ==> num as int == mag_r as int && n as int == mag as int),
        ;
    }
    Some(m)
}

/// `m / g` multiplied back by `g` recovers `m`, when `g` divides `m`.
proof fn exact_div_facts(m: int, g: int)
    requires
        m >= 0,
        g >= 1,
        m % g == 0,
    ensures
        m == g * (m / g),
        m / g <= m,
        m >= 1 ==> m / g >= 1,
{
    vstd::arithmetic::div_mod::lemma_fundamental_div_mod(m, g);
    assert(m / g <= m && (m >= 1 ==> m / g >= 1)) by (nonlinear_arith)
        requires
            m == g * (m / g) + m % g,
            m % g == 0,
            g >= 1,
            m >= 0,
    ;
}

/// Exact sum; `None` when the reduced result does not fit.
pub fn add_numbers(a: &Number, b: &Number) -> (r: Option<Number>)
    requires
        a.wf(),
        b.wf(),
    ensures
        r matches Some(m) ==> m.wf() && rat_eq(
            m.num as int,
            m.den as int,
            a.num as int * b.den as int + b.num as int * a.den as int,
            a.den as int * b.den as int,
        ),
        (i64::MIN <= a.num as int * b.den as int + b.num as int * a.den as int <= i64::MAX
            && a.den as int * b.den as int <= u64::MAX) ==> r is Some,
        r matches Some(m) ==> (m.num as int, m.den as int) == reduced_of(
            a.num as int * b.den as int + b.num as int * a.den as int,
            a.den as int * b.den as int,
        ),
{
    proof {
        lemma_prod_bounds(a.num as int, b.den as int);
        lemma_prod_bounds(b.num as int, a.den as int);
        lemma_den_prod_bounds(a.den as int, b.den as int);
    }
    let p1 = (a.num as i128) * (b.den as i128);
    let p2 = (b.num as i128) * (a.den as i128);
    if p1 >= 0 && p2 >= 0 && p1 > i128::MAX - p2 {
        return None;
    }
    if p1 < 0 && p2 < 0 && p1 < i128::MIN - p2 {
        return None;
    }
    make_number(p1 + p2, (a.den as u128) * (b.den as u128))
}

/// Exact difference; `None` when the reduced result does not fit.
pub fn sub_numbers(a: &Number, b: &Number) -> (r: Option<Number>)
    requires
        a.wf(),
        b.wf(),
    ensures
        r matches Some(m) ==> m.wf() && rat_eq(
            m.num as int,
            m.den as int,
            a.num as int * b.den as int - b.num as int * a.den as int,
            a.den as int * b.den as int,
        ),
        (i64::MIN <= a.num as int * b.den as int - b.num as int * a.den as int <= i64::MAX
            && a.den as int * b.den as int <= u64::MAX) ==> r is Some,
        r matches Some(m) ==> (m.num as int, m.den as int) == reduced_of(
            a.num as int * b.den as int - b.num as int * a.den as int,
            a.den as int * b.den as int,
        ),
{
    proof {
        lemma_prod_bounds(a.num as int, b.den as int);
        lemma_prod_bounds(b.num as int, a.den as int);
        lemma_den_prod_bounds(a.den as int, b.den as int);
    }
    let p1 = (a.num as i128) * (b.den as i128);
    let p2 = (b.num as i128) * (a.den as i128);
    if p1 >= 0 && p2 < 0 && p1 > i128::MAX + p2 {
        return None;
    }
    if p1 < 0 && p2 >= 0 && p1 < i128::MIN + p2 {
        return None;
    }
    make_number(p1 - p2, (a.den as u128) * (b.den as u128))
}

/// Exact product; `None` when the reduced result does not fit.
pub fn mul_numbers(a: &Number, b: &Number) -> (r: Option<Number>)
    requires
        a.wf(),
        b.wf(),
    ensures
        r matches Some(m) ==> m.wf() && rat_eq(
            m.num as int,
            m.den as int,
            a.num as int * b.num as int,
            a.den as int * b.den as int,
        ),
        (i64::MIN <= a.num as int * b.num as int <= i64::MAX && a.den as int * b.den as int
            <= u64::MAX) ==> r is Some,
        r matches Some(m) ==> (m.num as int, m.den as int) == reduced_of(
            a.num as int * b.num as int,
            a.den as int * b.den as int,
        ),
{
    proof {
        lemma_num_prod_bounds(a.num as int, b.num as int);
        lemma_den_prod_bounds(a.den as int, b.den as int);
    }
    let p = (a.num as i128) * (b.num as i128);
    make_number(p, (a.den as u128) * (b.den as u128))
}

/// Exact quotient for a non-zero divisor; `None` when the reduced result does not fit.
pub fn div_numbers(a: &Number, b: &Number) -> (r: Option<Number>)
    requires
        a.wf(),
        b.wf(),
        b.num != 0,
    ensures
        r matches Some(m) ==> m.wf() && m.den >= 1 && (m.num as int) * (a.den as int) * (
        b.num as int) == (a.num as int) * (b.den as int) * (m.den as int),
        (abs_int(a.num as int * b.den as int) <= i64::MAX && a.den as int * abs_int(b.num as int)
            <= u64::MAX) ==> r is Some,
{
    proof {
        lemma_prod_bounds(a.num as int, b.den as int);
    }
    let p = (a.num as i128) * (b.den as i128);
    let neg_divisor = b.num < 0;
    let bmag = mag_of_i64(b.num);
    let n = if neg_divisor {
        -p
    } else {
        p
    };
    proof {
        assert(1 <= a.den as int * bmag as int <= u128::MAX) by (nonlinear_arith)
            requires
                a.den as int >= 1,
                bmag as int >= 1,
                a.den as int <= u64::MAX as int,
                bmag as int <= (i64::MAX as int) + 1,
        ;
    }
    let d = (a.den as u128) * (bmag as u128);
    let r = make_number(n, d);
    proof {
        if r is Some {
            let m = r->0;
            assert((m.num as int) * (a.den as int) * (b.num as int) == (a.num as int) * (
            b.den as int) * (m.den as int)) by (nonlinear_arith)
                requires
                    m.num as int * (d as int) == n as int * (m.den as int),
                    d as int == a.den as int * bmag as int,
                    p as int == a.num as int * b.den as int,
                    (neg_divisor ==> n as int == -(p as int) && b.num as int == -(bmag as int)),
                    (!neg_divisor ==> n as int == p as int && b.num as int == bmag as int),
                    bmag as int >= 1,
            ;
        }
    }
    r
}

/// The magnitude of a signed 64-bit value, as an unsigned one.
fn mag_of_i64(n: i64) -> (m: u64)
    ensures
        m == abs_int(n as int),
{
    if n >= 0 {
        n as u64
    } else {
        ((-(n + 1)) as u64) + 1
    }
}

/// Truncated remainder of two numbers that denote integers, the divisor non-zero.
pub fn mod_numbers(a: &Number, b: &Number) -> (r: Number)
    requires
        a.wf(),
        b.wf(),
        a.spec_is_integer(),
        b.spec_is_integer(),
        b.num != 0,
    ensures
        r.wf(),
        r.den == 1,
        r.num as int == trunc_mod(a.int_value(), b.int_value()),
{
    let av = exact_int_value(a);
    let bv = exact_int_value(b);
    proof {
        lemma_nonzero_integer_value(*b);
    }
    let amag = mag_of_i128(av);
    let bmag = mag_of_i128(bv);
    let mmag = amag % bmag;
    let m: i64 = if av < 0 {
        -(mmag as i64)
    } else {
        mmag as i64
    };
    Number { num: m, den: 1 }
}

/// The integer a number denotes, when it denotes one.
pub fn exact_int_value(a: &Number) -> (v: i128)
    requires
        a.wf(),
        a.spec_is_integer(),
    ensures
        v as int == a.int_value(),
        abs_int(v as int) <= abs_int(a.num as int),
        a.num != 0 ==> v != 0,
{
    proof {
        lemma_mag_divisibility(a.num as int, a.den as int);
    }
    let neg = a.num < 0;
    let mag = mag_of_i128(a.num as i128);
    let q = mag / (a.den as u128);
    proof {
        exact_div_facts(mag as int, a.den as int);
        lemma_exact_div_negation(a.num as int, a.den as int, q as int);
    }
    if neg {
        -(q as i128)
    } else {
        q as i128
    }
}

/// Exact division commutes with negation of the dividend.
proof fn lemma_exact_div_negation(n: int, d: int, q: int)
    requires
        d >= 1,
        abs_int(n) % d == 0,
        q == abs_int(n) / d,
    ensures
        n >= 0 ==> n / d == q,
        n < 0 ==> n / d == -q,
        n != 0 ==> q >= 1,
{
    vstd::arithmetic::div_mod::lemma_fundamental_div_mod(abs_int(n), d);
    assert(abs_int(n) == d * q);
    if n < 0 {
        assert(n == d * (-q)) by (nonlinear_arith)
            requires
                -n == d * q,
        ;
        vstd::arithmetic::div_mod::lemma_div_multiples_vanish(-q, d);
    } else {
        vstd::arithmetic::div_mod::lemma_div_multiples_vanish(q, d);
    }
    if n != 0 {
        assert(q >= 1) by (nonlinear_arith)
            requires
                abs_int(n) == d * q,
                abs_int(n) >= 1,
                d >= 1,
        ;
    }
}

/// A non-zero integer-denoting number has a non-zero integer value.
proof fn lemma_nonzero_integer_value(b: Number)
    requires
        b.wf(),
        b.spec_is_integer(),
        b.num != 0,
    ensures
        b.int_value() != 0,
        abs_int(b.int_value()) >= 1,
{
    vstd::arithmetic::div_mod::lemma_fundamental_div_mod(b.num as int, b.den as int);
    assert(b.num as int == b.den as int * b.int_value());
    assert(b.int_value() != 0) by (nonlinear_arith)
        requires
            b.num as int == b.den as int * b.int_value(),
            b.num != 0,
    ;
}

/// A numerator/denominator product fits in 128 bits.
pub proof fn lemma_prod_bounds(n: int, d: int)
    requires
        i64::MIN <= n <= i64::MAX,
        1 <= d <= u64::MAX,
    ensures
        i128::MIN < n * d < i128::MAX,
{
    assert(i128::MIN < n * d < i128::MAX) by (nonlinear_arith)
        requires
            i64::MIN <= n <= i64::MAX,
            1 <= d <= u64::MAX,
    ;
}

proof fn lemma_num_prod_bounds(a: int, b: int)
    requires
        i64::MIN <= a <= i64::MAX,
        i64::MIN <= b <= i64::MAX,
    ensures
        i128::MIN < a * b < i128::MAX,
{
    assert(i128::MIN < a * b < i128::MAX) by (nonlinear_arith)
        requires
            i64::MIN <= a <= i64::MAX,
            i64::MIN <= b <= i64::MAX,
    ;
}

proof fn lemma_den_prod_bounds(a: int, b: int)
    requires
        1 <= a <= u64::MAX,
        1 <= b <= u64::MAX,
    ensures
        1 <= a * b <= u128::MAX,
{
    assert(1 <= a * b <= u128::MAX) by (nonlinear_arith)
        requires
            1 <= a <= u64::MAX,
            1 <= b <= u64::MAX,
    ;
}

} // verus!
