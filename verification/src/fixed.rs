//! Fixed-point arithmetic: a value `v: i64` stands for `v / FP`.

use vstd::prelude::*;

verus! {

/// One whole map-cell unit in fixed-point representation.
pub const FP: i64 = 65536;

/// Division by `FP` truncated toward zero, exactly as the executable
/// `a / FP` computes it on an `i64`.
pub open spec fn trunc_div_fp(a: int) -> int {
    if a >= 0 {
        a / (FP as int)
    } else {
        -((-a) / (FP as int))
    }
}

/// The product of two fixed-point values, truncated toward zero,
/// exactly as the executable `(a * b) / FP` computes it.
pub open spec fn fp_mul(a: int, b: int) -> int {
    trunc_div_fp(a * b)
}

/// Multiplies two fixed-point values.
pub fn mul_fp(a: i64, b: i64) -> (r: i64)
    requires
        i64::MIN <= a * b <= i64::MAX,
    ensures
        r == fp_mul(a as int, b as int),
{
    (a * b) / FP
}

/// Truncation toward zero never grows the magnitude of the quotient —
/// `|trunc_div_fp(a)| * FP <= |a|`, the quotient keeps the sign of `a` —
/// and loses less than one whole `FP` of the numerator.
pub proof fn lemma_trunc_div_fp_bound(a: int)
    ensures
        a >= 0 ==> 0 <= trunc_div_fp(a) && trunc_div_fp(a) * (FP as int) <= a
            && a < trunc_div_fp(a) * (FP as int) + FP,
        a < 0 ==> trunc_div_fp(a) <= 0 && -(trunc_div_fp(a) * (FP as int)) <= -a
            && -a < -(trunc_div_fp(a) * (FP as int)) + FP,
{
    let f = FP as int;
    if a >= 0 {
        let q = a / f;
        let r = a % f;
        vstd::arithmetic::div_mod::lemma_fundamental_div_mod(a, f);
        vstd::arithmetic::div_mod::lemma_mod_bound(a, f);
        assert(0 <= q && q * f <= a) by (nonlinear_arith)
            requires
                a == f * q + r,
                0 <= r < f,
                0 <= a,
                0 < f,
        {}
    } else {
        let q = (-a) / f;
        let r = (-a) % f;
        vstd::arithmetic::div_mod::lemma_fundamental_div_mod(-a, f);
        vstd::arithmetic::div_mod::lemma_mod_bound(-a, f);
        assert(0 <= q && q * f <= -a) by (nonlinear_arith)
            requires
                -a == f * q + r,
                0 <= r < f,
                0 <= -a,
                0 < f,
        {}
        assert(trunc_div_fp(a) == -q);
        assert(-(trunc_div_fp(a) * f) == q * f);
    }
}

} // verus!
