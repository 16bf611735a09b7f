//! Modulo (as opposed to remainder) arithmetic.
//!
//! `modulo` returns the remainder that takes the sign of the divisor, so that
//! for a positive divisor the result is always non-negative.
use vstd::arithmetic::div_mod::{
    lemma_fundamental_div_mod, lemma_fundamental_div_mod_converse_mod, lemma_mod_bound,
};
use vstd::prelude::*;

verus! {

/// The modulo of `a` and `b`: the unique value `r` with `a == b * q + r` for
/// some integer `q`, where `r` lies between 0 (inclusive) and `b` (exclusive).
///
/// Verus's ghost `%` is Euclidean (its result is always non-negative); for a
/// negative divisor the modulo is shifted back into `(b, 0]`.
pub open spec fn modulo_spec(a: int, b: int) -> int
    recommends
        b != 0,
{
    let r = a % b;
    if b > 0 {
        r
    } else if r == 0 {
        0
    } else {
        r + b
    }
}

/// The remainder as Rust's `%` operator computes it: it takes the sign of the
/// dividend. Written over the Euclidean `%` of the operands' magnitudes.
pub open spec fn rem_trunc(a: int, b: int) -> int
    recommends
        b != 0,
{
    if a == 0 {
        0
    } else if a > 0 && b > 0 {
        a % b
    } else if a < 0 && b < 0 {
        ((a * -1) % (b * -1)) * -1
    } else if a < 0 {
        ((a * -1) % b) * -1
    } else {
        a % (b * -1)
    }
}

/// `x % d` (Euclidean) from any decomposition `x == q * d + r` with
/// `0 <= r < |d|`, for either sign of `d`.
proof fn lemma_mod_converse(x: int, d: int, q: int, r: int)
    requires
        d != 0,
        0 <= r,
        d > 0 ==> r < d,
        d < 0 ==> r < -d,
        x == q * d + r,
    ensures
        x % d == r,
{
    if d > 0 {
        lemma_fundamental_div_mod_converse_mod(x, d, q, r);
    } else {
        lemma_fundamental_div_mod(x, d);
        let qq = x / d;
        let rr = x % d;
        assert(0 <= rr < -d) by (nonlinear_arith)
            requires
                d < 0,
                rr == x % d,
        ;
        assert(r == rr) by (nonlinear_arith)
            requires
                x == q * d + r,
                x == d * qq + rr,
                0 <= r < -d,
                0 <= rr < -d,
                d < 0,
        ;
    }
}

/// How the truncated remainder relates to the modulo: adding the divisor when
/// the signs disagree yields the modulo, and nothing need change otherwise.
proof fn lemma_rem_trunc_props(x: int, d: int)
    requires
        d != 0,
    ensures
        d > 0 ==> -d < rem_trunc(x, d) < d,
        d < 0 ==> d < rem_trunc(x, d) < -d,
        rem_trunc(x, d) != 0 && ((rem_trunc(x, d) < 0) != (d < 0)) ==> modulo_spec(x, d)
            == rem_trunc(x, d) + d,
        !(rem_trunc(x, d) != 0 && ((rem_trunc(x, d) < 0) != (d < 0))) ==> modulo_spec(x, d)
            == rem_trunc(x, d),
{
    if x == 0 {
        lemma_mod_converse(0, d, 0, 0);
    } else if x > 0 && d > 0 {
        lemma_mod_bound(x, d);
    } else if x < 0 && d < 0 {
        let m = (x * -1) % (d * -1);
        let q = (x * -1) / (d * -1);
        lemma_mod_bound(x * -1, d * -1);
        lemma_fundamental_div_mod(x * -1, d * -1);
        if m == 0 {
            assert(x == q * d + 0) by (nonlinear_arith)
                requires
                    x * -1 == (d * -1) * q + m,
                    m == 0,
            ;
            lemma_mod_converse(x, d, q, 0);
        } else {
            assert(x == (q + 1) * d + (-d - m)) by (nonlinear_arith)
                requires
                    x * -1 == (d * -1) * q + m,
            ;
            lemma_mod_converse(x, d, q + 1, -d - m);
        }
    } else if x < 0 {
        let m = (x * -1) % d;
        let q = (x * -1) / d;
        lemma_mod_bound(x * -1, d);
        lemma_fundamental_div_mod(x * -1, d);
        if m == 0 {
            assert(x == (-q) * d + 0) by (nonlinear_arith)
                requires
                    x * -1 == d * q + m,
                    m == 0,
            ;
            lemma_mod_converse(x, d, -q, 0);
        } else {
            assert(x == (-q - 1) * d + (d - m)) by (nonlinear_arith)
                requires
                    x * -1 == d * q + m,
            ;
            lemma_mod_converse(x, d, -q - 1, d - m);
        }
    } else {
        let m = x % (d * -1);
        let q = x / (d * -1);
        lemma_mod_bound(x, d * -1);
        lemma_fundamental_div_mod(x, d * -1);
        assert(x == (-q) * d + m) by (nonlinear_arith)
            requires
                x == (d * -1) * q + m,
        ;
        lemma_mod_converse(x, d, -q, m);
    }
}

pub trait Modulo<RHS = Self> {
    type Output;

    /// The inputs on which `modulo` is defined.
    spec fn modulo_req(self, rhs: RHS) -> bool;

    /// What `modulo` returns.
    spec fn modulo_ensures(self, rhs: RHS, r: Self::Output) -> bool;

    fn modulo(self, rhs: RHS) -> (r: Self::Output)
        requires
            self.modulo_req(rhs),
        ensures
            self.modulo_ensures(rhs, r),
    ;
}

pub trait OverflowingModulo<RHS = Self> {
    type Output;

    /// The inputs on which `overflowing_modulo` is defined.
    spec fn overflowing_modulo_req(self, rhs: RHS) -> bool;

    /// What `overflowing_modulo` returns.
    spec fn overflowing_modulo_ensures(self, rhs: RHS, r: (Self::Output, bool)) -> bool;

    fn overflowing_modulo(self, rhs: RHS) -> (r: (Self::Output, bool))
        requires
            self.overflowing_modulo_req(rhs),
        ensures
            self.overflowing_modulo_ensures(rhs, r),
    ;
}

impl Modulo for i64 {
    type Output = i64;

    open spec fn modulo_req(self, rhs: i64) -> bool {
        rhs != 0 && !(self == i64::MIN && rhs == -1)
    }

    open spec fn modulo_ensures(self, rhs: i64, r: i64) -> bool {
        r == modulo_spec(self as int, rhs as int)
    }

    fn modulo(self, rhs: i64) -> (r: i64) {
        proof {
            lemma_rem_trunc_props(self as int, rhs as int);
        }
        let rem = self.checked_rem(rhs).unwrap();
        assert(rem == rem_trunc(self as int, rhs as int));
        if rem != 0 && ((rem < 0) != (rhs < 0)) {
            rem + rhs
        } else {
            rem
        }
    }
}

impl OverflowingModulo for i64 {
    type Output = i64;

    open spec fn overflowing_modulo_req(self, rhs: i64) -> bool {
        rhs != 0
    }

    open spec fn overflowing_modulo_ensures(self, rhs: i64, r: (i64, bool)) -> bool {
        if self == i64::MIN && rhs == -1 {
            r == (0i64, true)
        } else {
            r.0 == modulo_spec(self as int, rhs as int) && !r.1
        }
    }

    fn overflowing_modulo(self, rhs: i64) -> (r: (i64, bool)) {
        if self == i64::MIN && rhs == -1 {
            (0, true)
        } else {
            (self.modulo(rhs), false)
        }
    }
}

} // verus!
