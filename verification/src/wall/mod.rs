use vstd::prelude::*;

pub mod binomial;
pub mod cell;
pub mod position;

pub use cell::Cell;
pub use position::Position;

verus! {

use crate::wall::binomial::{
    binomial, factorial, falling, lemma_factorial_le_falling,
    lemma_factorial_monotonic, lemma_factorial_positive, lemma_falling_all,
    lemma_falling_is_binomial_times_factorial, lemma_falling_last_factor,
    lemma_falling_monotonic, lemma_falling_one, lemma_falling_small,
};

/// Whether the multiplicative computation of `n` choose `k` stays within
/// `usize`: its largest intermediate value is the falling factorial
/// `n * (n - 1) * ... * (n - k + 1)`. Up to `n = 12` that is at most `12!`,
/// which fits in 32 bits.
pub open spec fn n_choose_k_fits(n: nat, k: nat) -> bool {
    k == 0 || k == n || n <= 12 || falling(n, k) <= usize::MAX
}

/// The binomial coefficient `n` choose `k`.
///
/// For `0 < k < n` the result is `n * (n - 1) * ... * (n - k + 1)` divided by
/// `k!`, both accumulated factor by factor.
pub fn n_choose_k(n: usize, k: usize) -> (r: usize)
    requires
        k <= n,
        n_choose_k_fits(n as nat, k as nat),
    ensures
        r == binomial(n as nat, k as nat),
{
    if k == 0 || n == k {
        proof {
            crate::wall::binomial::lemma_binomial_edges(n as nat);
        }
        1
    } else {
        let mut dividend: usize = n;
        let mut divisor: usize = 1;
        let mut i: usize = 2;
        proof {
            lemma_falling_one(n as nat);
            if n <= 12 {
                lemma_falling_small(n as nat, k as nat);
            }
        }
        while i <= k
            invariant
                0 < k < n,
                2 <= i <= k + 1,
                falling(n as nat, k as nat) <= usize::MAX,
                dividend == falling(n as nat, (i - 1) as nat),
                divisor == factorial((i - 1) as nat),
            decreases k + 1 - i,
        {
            proof {
                lemma_falling_monotonic(n as nat, i as nat, k as nat);
                lemma_falling_last_factor(n as nat, i as nat);
                lemma_factorial_le_falling(n as nat, i as nat);
            }
            dividend = dividend * (n - i + 1);
            divisor = divisor * i;
            i = i + 1;
        }
        proof {
            lemma_falling_is_binomial_times_factorial(n as nat, k as nat);
            lemma_factorial_positive(k as nat);
            vstd::arithmetic::div_mod::lemma_div_multiples_vanish(
                binomial(n as nat, k as nat) as int,
                factorial(k as nat) as int,
            );
        }
        dividend / divisor
    }
}

/// Whether `n!` fits in `usize`. Where it does, `n` choose `k` can be
/// computed for every `k <= n`.
pub fn factorial_fits(n: usize) -> (b: bool)
    ensures
        b == (factorial(n as nat) <= usize::MAX),
        b ==> forall|k: nat| k <= n ==> n_choose_k_fits(n as nat, k),
{
    let mut product: usize = 1;
    let mut i: usize = 0;
    while i < n
        invariant
            i <= n,
            product == factorial(i as nat),
        decreases n - i,
    {
        i = i + 1;
        match product.checked_mul(i) {
            Some(next) => {
                product = next;
            },
            None => {
                proof {
                    lemma_factorial_monotonic(i as nat, n as nat);
                }
                return false;
            },
        }
    }
    proof {
        assert forall|k: nat| k <= n implies n_choose_k_fits(n as nat, k) by {
            lemma_falling_monotonic(n as nat, k, n as nat);
            lemma_falling_all(n as nat);
        }
    }
    true
}

} // verus!
