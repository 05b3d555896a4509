//! Greatest common divisors, Bezout coefficients and modular inverses.

use vstd::prelude::*;
use crate::bignum::{floor_div, floor_mod, int_add, int_div_mod_floor, int_mul, int_sub, Integer, Natural};

verus! {

/// The absolute value.
pub open spec fn abs(x: int) -> int {
    if x < 0 { -x } else { x }
}

/// Euclid's algorithm with the remainder of floor division.
pub open spec fn gcd_int(a: int, b: int) -> int
    decreases abs(b),
    via gcd_int_decreases
{
    if b == 0 {
        a
    } else {
        gcd_int(b, floor_mod(a, b))
    }
}

/// The gcd and Bezout coefficients that the extended Euclidean algorithm gives,
/// recursing on the remainder and quotient of floor division.
pub open spec fn egcd_int(a: int, b: int) -> (int, int, int)
    decreases abs(b),
    via egcd_int_decreases
{
    if b == 0 {
        (a, 1, 0)
    } else {
        let (g, x, y) = egcd_int(b, floor_mod(a, b));
        (g, y, x - floor_div(a, b) * y)
    }
}

#[via_fn]
proof fn egcd_int_decreases(a: int, b: int) {
    if b != 0 {
        lemma_floor_mod_bound(a, b);
    }
}

#[via_fn]
proof fn gcd_int_decreases(a: int, b: int) {
    if b != 0 {
        lemma_floor_mod_bound(a, b);
    }
}

/// The remainder of floor division lies between zero and the divisor.
pub proof fn lemma_floor_mod_bound(a: int, b: int)
    requires
        b != 0,
    ensures
        b > 0 ==> 0 <= floor_mod(a, b) < b,
        b < 0 ==> b < floor_mod(a, b) <= 0,
        b > 0 ==> floor_mod(a, b) == a % b,
{
    if b > 0 {
        vstd::arithmetic::div_mod::lemma_fundamental_div_mod(a, b);
        vstd::arithmetic::div_mod::lemma_mod_bound(a, b);
    } else {
        vstd::arithmetic::div_mod::lemma_fundamental_div_mod(-a, -b);
        vstd::arithmetic::div_mod::lemma_mod_bound(-a, -b);
        assert(floor_mod(a, b) == -((-a) % (-b))) by (nonlinear_arith)
            requires
                floor_mod(a, b) == a - b * ((-a) / (-b)),
                (-a) == (-b) * ((-a) / (-b)) + (-a) % (-b),
        ;
    }
}

/// `d` divides `x`.
pub open spec fn divides(d: int, x: int) -> bool {
    exists|k: int| x == #[trigger] (d * k)
}

/// What Euclid's algorithm gives divides both of its arguments.
pub proof fn lemma_gcd_int_divides(a: int, b: int)
    ensures
        divides(gcd_int(a, b), a),
        divides(gcd_int(a, b), b),
    decreases abs(b),
{
    if b == 0 {
        assert(a == a * 1);
        assert(b == a * 0);
    } else {
        lemma_floor_mod_bound(a, b);
        let r = floor_mod(a, b);
        let f = floor_div(a, b);
        lemma_gcd_int_divides(b, r);
        let g = gcd_int(b, r);
        let kb = choose|k: int| b == #[trigger] (g * k);
        let kr = choose|k: int| r == #[trigger] (g * k);
        assert(a == g * (kr + kb * f)) by (nonlinear_arith)
            requires
                r == a - b * f,
                b == g * kb,
                r == g * kr,
        ;
    }
}

/// Every common divisor of `a` and `b` divides what Euclid's algorithm gives,
/// which therefore is their greatest common divisor, up to sign.
pub proof fn lemma_common_divisor_divides_gcd_int(a: int, b: int, d: int)
    requires
        divides(d, a),
        divides(d, b),
    ensures
        divides(d, gcd_int(a, b)),
    decreases abs(b),
{
    if b != 0 {
        lemma_floor_mod_bound(a, b);
        let r = floor_mod(a, b);
        let f = floor_div(a, b);
        let ka = choose|k: int| a == #[trigger] (d * k);
        let kb = choose|k: int| b == #[trigger] (d * k);
        assert(r == d * (ka - kb * f)) by (nonlinear_arith)
            requires
                r == a - b * f,
                a == d * ka,
                b == d * kb,
        ;
        lemma_common_divisor_divides_gcd_int(b, r, d);
    }
}

/// Euclid's algorithm ends on a positive value when the second argument is positive.
pub proof fn lemma_gcd_int_pos(a: int, b: int)
    requires
        b > 0,
    ensures
        gcd_int(a, b) > 0,
    decreases b,
{
    lemma_floor_mod_bound(a, b);
    let m = floor_mod(a, b);
    if m == 0 {
        assert(gcd_int(b, m) == b);
    } else {
        lemma_gcd_int_pos(b, m);
    }
}

/// A number that is one more than a multiple of `m > 1` leaves remainder one.
proof fn lemma_rem_one(t: int, m: int)
    requires
        m > 1,
        (t - 1) % m == 0,
    ensures
        t % m == 1,
{
    vstd::arithmetic::div_mod::lemma_fundamental_div_mod(t - 1, m);
    assert(t == (t - 1) / m * m + 1) by (nonlinear_arith)
        requires
            t - 1 == m * ((t - 1) / m) + (t - 1) % m,
            (t - 1) % m == 0,
    ;
    vstd::arithmetic::div_mod::lemma_fundamental_div_mod_converse_mod(t, m, (t - 1) / m, 1);
}

/// The extended Euclidean algorithm: returns `(g, x, y)` where `g` is what
/// Euclid's algorithm gives for `a` and `b` and `a*x + b*y == g`.
pub fn egcd(a: Integer, b: Integer) -> (r: (Integer, Integer, Integer))
    ensures
        (r.0@, r.1@, r.2@) == egcd_int(a@, b@),
        r.0@ == gcd_int(a@, b@),
        a@ * r.1@ + b@ * r.2@ == r.0@,
    decreases abs(b@),
{
    if b.magnitude().equals(&Natural::zero()) {
        let one = Integer::from_natural(false, Natural::from_u32(1));
        let zero = Integer::from_natural(false, Natural::zero());
        (a, one, zero)
    } else {
        let ghost av = a@;
        let ghost bv = b@;
        let (q, m) = int_div_mod_floor(&a, &b);
        proof {
            lemma_floor_mod_bound(av, bv);
        }
        let (g, x, y) = egcd(b, m);
        let t = int_sub(&x, &int_mul(&q, &y));
        proof {
            assert(av * y@ + bv * t@ == g@) by (nonlinear_arith)
                requires
                    bv * x@ + m@ * y@ == g@,
                    m@ == av - bv * q@,
                    t@ == x@ - q@ * y@,
            ;
        }
        (g, y, t)
    }
}

/// The inverse of `a` modulo `m`, normalised to the range of `floor_mod`
/// (`[0, m)` for a positive `m`); `None` when the greatest common divisor is not
/// one or minus one.
pub fn modinv(a: &Integer, m: &Integer) -> (r: Option<Integer>)
    requires
        m@ != 0,
    ensures
        r is Some <==> (gcd_int(a@, m@) == 1 || gcd_int(a@, m@) == -1),
        r matches Some(x) ==> (a@ * x@ - gcd_int(a@, m@)) % abs(m@) == 0,
        r matches Some(x) ==> (m@ > 0 ==> 0 <= x@ < m@) && (m@ < 0 ==> m@ < x@ <= 0),
        m@ > 1 && gcd_int(a@, m@) == 1 ==> (r matches Some(x) && (a@ * x@) % m@ == 1),
        m@ > 0 && gcd_int(a@, m@) != 1 ==> r is None,
{
    let (g, x, _y) = egcd(a.copy(), m.copy());
    proof {
        if m@ > 0 {
            lemma_gcd_int_pos(a@, m@);
        }
    }
    if g.magnitude().equals(&Natural::from_u32(1)) {
        let (_f1, x1) = int_div_mod_floor(&x, m);
        let x2 = int_add(&x1, m);
        let (_f2, xr) = int_div_mod_floor(&x2, m);
        proof {
            let av = a@;
            let mv = m@;
            let gv = g@;
            let k = av * (1 - _f1@ - _f2@) - _y@;
            assert(av * xr@ - gv == mv * k) by (nonlinear_arith)
                requires
                    av * x@ + mv * _y@ == gv,
                    x1@ == x@ - mv * _f1@,
                    x2@ == x1@ + mv,
                    xr@ == x2@ - mv * _f2@,
                    k == av * (1 - _f1@ - _f2@) - _y@,
            ;
            if mv > 0 {
                vstd::arithmetic::div_mod::lemma_mod_multiples_basic(k, mv);
                assert(mv * k == k * mv) by (nonlinear_arith);
            } else {
                vstd::arithmetic::div_mod::lemma_mod_multiples_basic(-k, -mv);
                assert(mv * k == (-k) * (-mv)) by (nonlinear_arith);
            }
            lemma_floor_mod_bound(x2@, mv);
            if mv > 1 && gv == 1 {
                lemma_rem_one(av * xr@, mv);
            }
        }
        Some(xr)
    } else {
        None
    }
}

} // verus!
