use vstd::prelude::*;

verus! {

use vstd::arithmetic::power2::{lemma2_to64, lemma_pow2_strictly_increases, lemma_pow2_unfold, pow2};

/// `n` choose `k` by Pascal's rule.
pub open spec fn binomial(n: nat, k: nat) -> nat
    decreases n,
{
    if k == 0 {
        1
    } else if n == 0 {
        0
    } else {
        binomial((n - 1) as nat, (k - 1) as nat) + binomial((n - 1) as nat, k)
    }
}

/// `k!`.
pub open spec fn factorial(k: nat) -> nat
    decreases k,
{
    if k == 0 {
        1
    } else {
        factorial((k - 1) as nat) * k
    }
}

/// The falling factorial `n * (n - 1) * ... * (n - k + 1)`; zero when `k > n`.
pub open spec fn falling(n: nat, k: nat) -> nat
    decreases k,
{
    if k == 0 {
        1
    } else {
        n * falling((n - 1) as nat, (k - 1) as nat)
    }
}

/// `n` choose `k` is zero when `k` exceeds `n`.
pub proof fn lemma_binomial_zero(n: nat, k: nat)
    requires
        k > n,
    ensures
        binomial(n, k) == 0,
    decreases n,
{
    if n > 0 {
        lemma_binomial_zero((n - 1) as nat, (k - 1) as nat);
        lemma_binomial_zero((n - 1) as nat, k);
    }
}

/// `n` choose `0` and `n` choose `n` are both one.
pub proof fn lemma_binomial_edges(n: nat)
    ensures
        binomial(n, 0) == 1,
        binomial(n, n) == 1,
    decreases n,
{
    if n > 0 {
        lemma_binomial_edges((n - 1) as nat);
        lemma_binomial_zero((n - 1) as nat, n);
    }
}

/// `n` choose `k` is at least one when `k <= n`.
pub proof fn lemma_binomial_positive(n: nat, k: nat)
    requires
        k <= n,
    ensures
        binomial(n, k) >= 1,
    decreases n,
{
    if k > 0 && n > 0 {
        lemma_binomial_positive((n - 1) as nat, (k - 1) as nat);
    }
}

/// A factorial is at least one.
pub proof fn lemma_factorial_positive(k: nat)
    ensures
        factorial(k) >= 1,
    decreases k,
{
    if k > 0 {
        lemma_factorial_positive((k - 1) as nat);
        assert(factorial((k - 1) as nat) * k >= 1) by (nonlinear_arith)
            requires
                factorial((k - 1) as nat) >= 1,
                k >= 1,
        ;
    }
}

/// The falling factorial is zero when it has more factors than `n`.
pub proof fn lemma_falling_zero(n: nat, k: nat)
    requires
        k > n,
    ensures
        falling(n, k) == 0,
    decreases n,
{
    if n > 0 {
        lemma_falling_zero((n - 1) as nat, (k - 1) as nat);
        assert(n * falling((n - 1) as nat, (k - 1) as nat) == 0) by (nonlinear_arith)
            requires
                falling((n - 1) as nat, (k - 1) as nat) == 0,
        ;
    } else {
        assert(0 * falling(0, (k - 1) as nat) == 0) by (nonlinear_arith);
    }
}

/// One more factor: the falling factorial over `k` factors is the one over
/// `k - 1` factors times `n - k + 1`.
pub proof fn lemma_falling_last_factor(n: nat, k: nat)
    requires
        1 <= k <= n,
    ensures
        falling(n, k) == falling(n, (k - 1) as nat) * (n + 1 - k),
    decreases k,
{
    let m = (n - 1) as nat;
    if k == 1 {
        reveal_with_fuel(falling, 2);
        assert(n * 1 == 1 * (n + 1 - 1)) by (nonlinear_arith);
    } else {
        lemma_falling_last_factor(m, (k - 1) as nat);
        let a = falling(m, (k - 2) as nat);
        let f = n + 1 - k;
        assert(n * (a * f) == (n * a) * f) by (nonlinear_arith);
    }
}

/// `factorial(k) * binomial(n, k)` is the falling factorial of `n` over `k`
/// factors, for every `n` and `k`.
pub proof fn lemma_falling_is_binomial_times_factorial(n: nat, k: nat)
    ensures
        falling(n, k) == binomial(n, k) * factorial(k),
    decreases n,
{
    if k == 0 {
        assert(binomial(n, 0) * factorial(0) == 1) by (nonlinear_arith)
            requires
                binomial(n, 0) == 1,
                factorial(0) == 1,
        ;
    } else if n == 0 {
        assert(binomial(0, k) * factorial(k) == 0) by (nonlinear_arith)
            requires
                binomial(0, k) == 0,
        ;
        assert(0 * falling(0, (k - 1) as nat) == 0) by (nonlinear_arith);
    } else {
        let m = (n - 1) as nat;
        let j = (k - 1) as nat;
        lemma_falling_is_binomial_times_factorial(m, j);
        lemma_falling_is_binomial_times_factorial(m, k);
        let fj = factorial(j);
        let a = binomial(m, j);
        let b = binomial(m, k);
        // falling(m, k) == falling(m, j) * (m + 1 - k), also when k > m
        assert(falling(m, k) == falling(m, j) * (n - k)) by {
            if k > m {
                lemma_falling_zero(m, k);
                if k > n {
                    lemma_falling_zero(m, j);
                }
                assert(falling(m, j) * (n - k) == 0) by (nonlinear_arith)
                    requires
                        n - k == 0 || falling(m, j) == 0,
                ;
            } else {
                lemma_falling_last_factor(m, k);
            }
        }
        assert(n * falling(m, j) == (a + b) * (fj * k)) by (nonlinear_arith)
            requires
                falling(m, j) == a * fj,
                falling(m, j) * (n - k) == b * (fj * k),
        ;
    }
}

/// More factors do not shrink the falling factorial while `k <= n`.
pub proof fn lemma_falling_monotonic(n: nat, i: nat, k: nat)
    requires
        i <= k <= n,
    ensures
        falling(n, i) <= falling(n, k),
        falling(n, i) >= 1,
    decreases k,
{
    if i < k {
        lemma_falling_monotonic(n, i, (k - 1) as nat);
        lemma_falling_last_factor(n, k);
        let f = n + 1 - k;
        assert(falling(n, (k - 1) as nat) * f >= falling(n, (k - 1) as nat)) by (nonlinear_arith)
            requires
                f >= 1,
        ;
    } else if k > 0 {
        lemma_falling_monotonic(n, (k - 1) as nat, (k - 1) as nat);
        lemma_falling_last_factor(n, k);
        let f = n + 1 - k;
        assert(falling(n, (k - 1) as nat) * f >= 1) by (nonlinear_arith)
            requires
                f >= 1,
                falling(n, (k - 1) as nat) >= 1,
        ;
    }
}

/// `i!` is at most the falling factorial of `n` over `i` factors when `i <= n`.
pub proof fn lemma_factorial_le_falling(n: nat, i: nat)
    requires
        i <= n,
    ensures
        factorial(i) <= falling(n, i),
{
    lemma_falling_is_binomial_times_factorial(n, i);
    lemma_binomial_positive(n, i);
    assert(binomial(n, i) * factorial(i) >= factorial(i)) by (nonlinear_arith)
        requires
            binomial(n, i) >= 1,
    ;
}

/// The factorial of a larger number is no smaller.
pub proof fn lemma_factorial_monotonic(a: nat, b: nat)
    requires
        a <= b,
    ensures
        factorial(a) <= factorial(b),
    decreases b,
{
    if a < b {
        lemma_factorial_monotonic(a, (b - 1) as nat);
        lemma_factorial_positive((b - 1) as nat);
        assert(factorial((b - 1) as nat) * b >= factorial((b - 1) as nat)) by (nonlinear_arith)
            requires
                b >= 1,
        ;
    }
}

/// The falling factorial of `n` over all its `n` factors is `n!`.
pub proof fn lemma_falling_all(n: nat)
    ensures
        falling(n, n) == factorial(n),
{
    lemma_falling_is_binomial_times_factorial(n, n);
    lemma_binomial_edges(n);
    assert(1 * factorial(n) == factorial(n)) by (nonlinear_arith);
}

/// Over one factor the falling factorial is `n`; so is `1!` one.
pub proof fn lemma_falling_one(n: nat)
    ensures
        falling(n, 1) == n,
        factorial(1) == 1,
{
    reveal_with_fuel(falling, 2);
    reveal_with_fuel(factorial, 2);
}

/// Up to `n = 12` a falling factorial is at most `12!`.
pub proof fn lemma_falling_small(n: nat, k: nat)
    requires
        k <= n <= 12,
    ensures
        falling(n, k) <= 479001600,
{
    lemma_falling_monotonic(n, k, n);
    lemma_falling_all(n);
    lemma_factorial_monotonic(n, 12);
    reveal_with_fuel(factorial, 13);
    assert(factorial(12) == 479001600);
}

/// A factorial that fits in 64 bits is that of a number up to 20.
pub proof fn lemma_factorial_fits_64(n: nat)
    requires
        factorial(n) <= u64::MAX,
    ensures
        n <= 20,
{
    if n > 20 {
        lemma_factorial_monotonic(21, n);
        reveal_with_fuel(factorial, 22);
        assert(factorial(21) == 51090942171709440000);
    }
}

/// `n` choose `k` is at most two to the `n`.
pub proof fn lemma_binomial_le_pow2(n: nat, k: nat)
    ensures
        binomial(n, k) <= pow2(n),
    decreases n,
{
    if n == 0 {
        lemma2_to64();
    } else {
        lemma_pow2_unfold(n);
        if k > 0 {
            lemma_binomial_le_pow2((n - 1) as nat, (k - 1) as nat);
            lemma_binomial_le_pow2((n - 1) as nat, k);
        } else {
            vstd::arithmetic::power2::lemma_pow2_pos((n - 1) as nat);
        }
    }
}

/// Where `n!` fits in 64 bits, `n` choose `k` is at most two to the 20.
pub proof fn lemma_binomial_small(n: nat, k: nat)
    requires
        factorial(n) <= u64::MAX,
    ensures
        binomial(n, k) <= 0x100000,
{
    lemma_factorial_fits_64(n);
    lemma_binomial_le_pow2(n, k);
    lemma2_to64();
    if n < 20 {
        lemma_pow2_strictly_increases(n, 20);
    }
}

} // verus!
