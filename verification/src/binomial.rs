//! Binomial coefficients, which count the combinations of each size.

use vstd::prelude::*;

verus! {

/// The number of ways to pick `k` items out of `n`, by Pascal's rule.
pub open spec fn binomial(n: nat, k: nat) -> nat
    decreases n,
{
    if k == 0 {
        1
    } else if n == 0 {
        0
    } else {
        binomial((n - 1) as nat, (k - 1) as nat) + binomial((n - 1) as nat, k)
    }
}

/// Two to the power `n`.
pub open spec fn pow2(n: nat) -> nat
    decreases n,
{
    if n == 0 {
        1
    } else {
        2 * pow2((n - 1) as nat)
    }
}

/// The sum of `binomial(n, k)` over the sizes `k` with `lo <= k < hi`.
pub open spec fn binomial_sum(n: nat, lo: nat, hi: nat) -> nat
    decreases hi,
{
    if hi <= lo {
        0
    } else {
        binomial_sum(n, lo, (hi - 1) as nat) + binomial(n, (hi - 1) as nat)
    }
}

/// No items can be picked in exactly one way, and more items than there are
/// in no way at all.
pub proof fn lemma_binomial_edges(n: nat, k: nat)
    ensures
        binomial(n, 0) == 1,
        k > n ==> binomial(n, k) == 0,
        binomial(n, n) == 1,
    decreases n,
{
    if n > 0 {
        lemma_binomial_edges((n - 1) as nat, k);
        lemma_binomial_edges((n - 1) as nat, n);
        if k > 0 {
            lemma_binomial_edges((n - 1) as nat, (k - 1) as nat);
        }
        lemma_binomial_edges((n - 1) as nat, (n - 1) as nat);
    }
}

/// There is at least one way to pick `k` items out of `n` exactly when
/// `k <= n`.
pub proof fn lemma_binomial_positive(n: nat, k: nat)
    ensures
        binomial(n, k) > 0 <==> k <= n,
    decreases n,
{
    lemma_binomial_edges(n, k);
    if n > 0 && k > 0 {
        lemma_binomial_positive((n - 1) as nat, (k - 1) as nat);
        lemma_binomial_positive((n - 1) as nat, k);
    }
}

/// A sum of binomials over a range of sizes splits by Pascal's rule into two
/// sums over the smaller pool.
proof fn lemma_binomial_sum_pascal(n: nat, hi: nat)
    requires
        n > 0,
    ensures
        binomial_sum(n, 0, hi) == if hi == 0 {
            0
        } else {
            binomial_sum((n - 1) as nat, 0, hi) + binomial_sum((n - 1) as nat, 0, (hi - 1) as nat)
        },
    decreases hi,
{
    let m = (n - 1) as nat;
    if hi == 0 {
    } else if hi == 1 {
        assert(binomial_sum(n, 0, 0) == 0);
        assert(binomial_sum(m, 0, 0) == 0);
        assert(binomial_sum(n, 0, 1) == binomial(n, 0));
        assert(binomial_sum(m, 0, 1) == binomial(m, 0));
    } else {
        lemma_binomial_sum_pascal(n, (hi - 1) as nat);
        assert(binomial_sum(m, 0, hi) == binomial_sum(m, 0, (hi - 1) as nat) + binomial(m, (hi - 1) as nat));
        assert(binomial_sum(m, 0, (hi - 1) as nat) == binomial_sum(m, 0, (hi - 2) as nat) + binomial(
            m,
            (hi - 2) as nat,
        ));
    }
}

/// The binomials of all sizes `0..=n` add up to two to the power `n`.
pub proof fn lemma_binomial_sum_all(n: nat)
    ensures
        binomial_sum(n, 0, n + 1) == pow2(n),
    decreases n,
{
    if n == 0 {
        assert(binomial_sum(0, 0, 0) == 0);
        assert(binomial_sum(0, 0, 1) == binomial_sum(0, 0, 0) + binomial(0, 0));
    } else {
        let m = (n - 1) as nat;
        lemma_binomial_sum_pascal(n, n + 1);
        lemma_binomial_sum_all(m);
        // The larger sum over the smaller pool only adds an empty term.
        assert(binomial_sum(m, 0, n + 1) == binomial_sum(m, 0, n) + binomial(m, n));
        lemma_binomial_edges(m, n);
    }
}

/// Taking the first term out of a sum of binomials.
proof fn lemma_binomial_sum_drop_first(n: nat, lo: nat, hi: nat)
    requires
        lo < hi,
    ensures
        binomial_sum(n, lo, hi) == binomial(n, lo) + binomial_sum(n, lo + 1, hi),
    decreases hi,
{
    if hi == lo + 1 {
        assert(binomial_sum(n, lo, lo) == 0);
        assert(binomial_sum(n, lo + 1, hi) == 0);
    } else {
        lemma_binomial_sum_drop_first(n, lo, (hi - 1) as nat);
    }
}

/// The binomials of the sizes `1..n`, which leave out the empty and the full
/// pick, add up to two to the power `n`, less two.
pub proof fn lemma_binomial_sum_proper(n: nat)
    requires
        n >= 1,
    ensures
        binomial_sum(n, 1, n) == pow2(n) - 2,
{
    lemma_binomial_sum_all(n);
    lemma_binomial_sum_drop_first(n, 0, n + 1);
    lemma_binomial_edges(n, 0);
    assert(binomial_sum(n, 1, n + 1) == binomial_sum(n, 1, n) + binomial(n, n));
}

} // verus!
