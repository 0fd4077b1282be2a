//! Counters that wrap around at the end of `usize`.

use vstd::arithmetic::div_mod::{
    lemma_add_mod_noop, lemma_fundamental_div_mod, lemma_mod_self_0, lemma_small_mod, lemma_sub_mod_noop,
};
use vstd::prelude::*;

verus! {

/// `n` reduced to the range of `usize`, as a wrapping counter holds it.
pub open spec fn wrapped(n: int) -> usize {
    (n % (usize::MAX + 1)) as usize
}

/// A count that fits is held as it is.
pub proof fn lemma_wrapped_fits(n: int)
    requires
        0 <= n <= usize::MAX,
    ensures
        wrapped(n) == n,
{
    lemma_small_mod(n as nat, (usize::MAX + 1) as nat);
}

/// Counting one up commutes with wrapping.
pub proof fn lemma_wrapped_up(n: int)
    ensures
        wrapped(n + 1) == wrapped(n).wrapping_add(1),
        wrapped(wrapped(n) + 1) == wrapped(n + 1),
{
    let m = usize::MAX + 1;
    lemma_add_mod_noop(n, 1, m);
    lemma_small_mod(1, m as nat);
    if n % m + 1 < m {
        lemma_small_mod((n % m + 1) as nat, m as nat);
    } else {
        lemma_mod_self_0(m);
    }
}

/// Counting one down commutes with wrapping.
pub proof fn lemma_wrapped_down(n: int)
    ensures
        wrapped(n - 1) == wrapped(n).wrapping_sub(1),
        wrapped(wrapped(n) - 1) == wrapped(n - 1),
{
    lemma_wrapped_up(n - 1);
    let m = usize::MAX + 1;
    lemma_sub_mod_noop(n, 1, m);
    lemma_small_mod(1, m as nat);
    if n % m >= 1 {
        lemma_small_mod((n % m - 1) as nat, m as nat);
    }
}

/// A wrapping counter holds the number itself or one that differs from it by whole turns, and always
/// one in its range.
pub proof fn law_counter_wraps_by_whole_turns(n: int) -> (turns: int)
    ensures
        n == wrapped(n) + turns * (usize::MAX + 1),
        0 <= n <= usize::MAX ==> wrapped(n) == n,
{
    let m = usize::MAX + 1;
    lemma_fundamental_div_mod(n, m);
    if 0 <= n <= usize::MAX {
        lemma_wrapped_fits(n);
    }
    assert(m * (n / m) == (n / m) * m) by (nonlinear_arith);
    n / m
}

} // verus!
