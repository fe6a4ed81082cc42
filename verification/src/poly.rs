//! Polynomials, given by their coefficients from the constant term upwards.
use vstd::arithmetic::div_mod::*;
use vstd::arithmetic::power::*;
use vstd::prelude::*;

verus! {

/// The value of a polynomial at a point.
pub open spec fn evaluate(coefficients: Seq<int>, x: int) -> int
    decreases coefficients.len(),
{
    if coefficients.len() == 0 {
        0
    } else {
        coefficients[0] + x * evaluate(coefficients.drop_first(), x)
    }
}

/// Sums of congruent numbers are congruent.
pub proof fn lemma_congruent_sum(a: int, b: int, c: int, d: int, m: int)
    requires
        m > 0,
        a % m == b % m,
        c % m == d % m,
    ensures
        (a + c) % m == (b + d) % m,
{
    lemma_add_mod_noop(a, c, m);
    lemma_add_mod_noop(b, d, m);
}

/// Products of congruent numbers are congruent.
pub proof fn lemma_congruent_product(a: int, b: int, c: int, d: int, m: int)
    requires
        m > 0,
        a % m == b % m,
        c % m == d % m,
    ensures
        (a * c) % m == (b * d) % m,
{
    lemma_mul_mod_noop(a, c, m);
    lemma_mul_mod_noop(b, d, m);
}

/// Powers of congruent numbers are congruent.
pub proof fn lemma_congruent_power(a: int, b: int, e: nat, m: int)
    requires
        m > 0,
        a % m == b % m,
    ensures
        pow(a, e) % m == pow(b, e) % m,
{
    lemma_pow_mod_noop(a, e, m);
    lemma_pow_mod_noop(b, e, m);
}

/// The value of a polynomial whose coefficients are written in two parts.
pub proof fn lemma_evaluate_parts(low: Seq<int>, high: Seq<int>, x: int)
    ensures
        evaluate(low + high, x) == evaluate(low, x) + pow(x, low.len()) * evaluate(high, x),
    decreases low.len(),
{
    if low.len() == 0 {
        assert(low + high =~= high);
        lemma_pow0(x);
    } else {
        lemma_evaluate_parts(low.drop_first(), high, x);
        assert((low + high).drop_first() =~= low.drop_first() + high);
        reveal(pow);
        let rest = evaluate(low.drop_first(), x);
        let top = evaluate(high, x);
        let p = pow(x, (low.len() - 1) as nat);
        assert(x * (rest + p * top) == x * rest + (x * p) * top) by (nonlinear_arith);
    }
}

/// A polynomial that is coefficient by coefficient a sum of two others, the second of
/// them scaled, has the sum of their values, the second of them scaled.
pub proof fn lemma_evaluate_combination(
    a: Seq<int>,
    b: Seq<int>,
    scale: int,
    combined: Seq<int>,
    x: int,
    m: int,
)
    requires
        m > 0,
        a.len() == b.len(),
        a.len() == combined.len(),
        forall|t: int|
            0 <= t < a.len() ==> (#[trigger] combined[t]) % m == (a[t] + scale * b[t]) % m,
    ensures
        evaluate(combined, x) % m == (evaluate(a, x) + scale * evaluate(b, x)) % m,
    decreases a.len(),
{
    if a.len() > 0 {
        let a1 = a.drop_first();
        let b1 = b.drop_first();
        let c1 = combined.drop_first();
        assert forall|t: int| 0 <= t < a1.len() implies (#[trigger] c1[t]) % m == (a1[t] + scale
            * b1[t]) % m by {
            assert(c1[t] == combined[t + 1]);
        }
        lemma_evaluate_combination(a1, b1, scale, c1, x, m);
        let ea = evaluate(a1, x);
        let eb = evaluate(b1, x);
        lemma_congruent_product(x, x, evaluate(c1, x), ea + scale * eb, m);
        lemma_congruent_sum(
            combined[0],
            a[0] + scale * b[0],
            x * evaluate(c1, x),
            x * (ea + scale * eb),
            m,
        );
        assert((a[0] + scale * b[0]) + x * (ea + scale * eb) == (a[0] + x * ea) + scale * (b[0] + x
            * eb)) by (nonlinear_arith);
    } else {
        assert(scale * 0 == 0);
    }
}

/// A polynomial with no coefficient other than zero has no value other than zero.
pub proof fn lemma_evaluate_zeros(coefficients: Seq<int>, x: int)
    requires
        forall|t: int| 0 <= t < coefficients.len() ==> coefficients[t] == 0,
    ensures
        evaluate(coefficients, x) == 0,
    decreases coefficients.len(),
{
    if coefficients.len() > 0 {
        lemma_evaluate_zeros(coefficients.drop_first(), x);
    }
}

} // verus!
