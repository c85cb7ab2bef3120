//! Powers of two and the power-of-two ceiling used to pad matrix heights.

use vstd::prelude::*;

verus! {

/// `2^k`.
pub open spec fn pow2(k: nat) -> nat
    decreases k,
{
    if k == 0 {
        1
    } else {
        2 * pow2((k - 1) as nat)
    }
}

/// The smallest power of two that is at least `x` (`1` for `x <= 1`),
/// as returned by `usize::next_power_of_two` when it does not overflow.
pub open spec fn npot(x: nat) -> nat
    decreases x,
{
    if x <= 1 {
        1
    } else {
        2 * npot(((x + 1) / 2) as nat)
    }
}

/// The exponent of `npot(x)`.
pub open spec fn npot_log(x: nat) -> nat
    decreases x,
{
    if x <= 1 {
        0
    } else {
        1 + npot_log(((x + 1) / 2) as nat)
    }
}

/// `x` is a power of two.
pub open spec fn is_pow2(x: nat) -> bool {
    exists|k: nat| x == pow2(k)
}

/// `npot(x)` is a power of two.
pub proof fn lemma_npot_pow2(x: nat)
    ensures
        is_pow2(npot(x)),
{
    lemma_npot_is_pow2(x);
}

pub proof fn lemma_pow2_pos(k: nat)
    ensures
        pow2(k) >= 1,
    decreases k,
{
    if k > 0 {
        lemma_pow2_pos((k - 1) as nat);
    }
}

/// `pow2` is strictly increasing.
pub proof fn lemma_pow2_strict(a: nat, b: nat)
    requires
        a < b,
    ensures
        pow2(a) < pow2(b),
    decreases b,
{
    lemma_pow2_pos(a);
    if a + 1 < b {
        lemma_pow2_strict(a, (b - 1) as nat);
    }
}

/// `pow2` is monotone.
pub proof fn lemma_pow2_mono(a: nat, b: nat)
    requires
        a <= b,
    ensures
        pow2(a) <= pow2(b),
{
    if a < b {
        lemma_pow2_strict(a, b);
    }
}

/// `pow2` is injective.
pub proof fn lemma_pow2_injective(a: nat, b: nat)
    requires
        pow2(a) == pow2(b),
    ensures
        a == b,
{
    if a < b {
        lemma_pow2_strict(a, b);
    } else if b < a {
        lemma_pow2_strict(b, a);
    }
}

/// `npot(x)` is the power of two `2^npot_log(x)`.
pub proof fn lemma_npot_is_pow2(x: nat)
    ensures
        npot(x) == pow2(npot_log(x)),
    decreases x,
{
    if x > 1 {
        lemma_npot_is_pow2(((x + 1) / 2) as nat);
    }
}

/// `npot(x)` is the smallest power of two that is at least `x`:
/// any `2^k` with `x <= 2^k` and (`k == 0` or `2^(k-1) < x`) equals it.
pub proof fn lemma_npot_char(x: nat, k: nat)
    requires
        x <= pow2(k),
        k == 0 || pow2((k - 1) as nat) < x,
    ensures
        npot(x) == pow2(k),
    decreases x,
{
    if x <= 1 {
        if k > 0 {
            lemma_pow2_pos((k - 1) as nat);
        }
    } else {
        assert(k > 0);
        let y = ((x + 1) / 2) as nat;
        let k1 = (k - 1) as nat;
        if k1 > 0 {
            assert(pow2(k1) == 2 * pow2((k1 - 1) as nat));
        }
        lemma_npot_char(y, k1);
    }
}

/// `npot(x)` is at least `x` and at least `1`, and less than `2 * x` for `x >= 1`.
pub proof fn lemma_npot_bounds(x: nat)
    ensures
        npot(x) >= x,
        npot(x) >= 1,
        x >= 1 ==> npot(x) < 2 * x,
    decreases x,
{
    if x > 1 {
        lemma_npot_bounds(((x + 1) / 2) as nat);
    }
}

/// `npot` is monotone.
pub proof fn lemma_npot_mono(x: nat, y: nat)
    requires
        x <= y,
    ensures
        npot(x) <= npot(y),
    decreases y,
{
    if x <= 1 {
        lemma_npot_bounds(y);
    } else {
        lemma_npot_mono(((x + 1) / 2) as nat, ((y + 1) / 2) as nat);
    }
}

/// The power-of-two ceiling of a power of two is itself.
pub proof fn lemma_npot_of_pow2(k: nat)
    ensures
        npot(pow2(k)) == pow2(k),
{
    lemma_pow2_pos(k);
    if k > 0 {
        lemma_pow2_strict((k - 1) as nat, k);
    }
    lemma_npot_char(pow2(k), k);
}

/// Computes `2^k` for a `k` whose power fits in `usize`.
pub fn pow2_usize(k: usize) -> (r: usize)
    requires
        pow2(k as nat) <= usize::MAX,
    ensures
        r == pow2(k as nat),
{
    let mut r: usize = 1;
    let mut i: usize = 0;
    while i < k
        invariant
            i <= k,
            r == pow2(i as nat),
            pow2(k as nat) <= usize::MAX,
        decreases k - i,
    {
        proof {
            lemma_pow2_mono((i + 1) as nat, k as nat);
        }
        r = r * 2;
        i = i + 1;
    }
    r
}

/// The smallest power of two that is at least `x`, as `usize::next_power_of_two`
/// computes it where it does not overflow.
pub fn next_power_of_two(x: usize) -> (r: usize)
    requires
        npot(x as nat) <= usize::MAX,
    ensures
        r == npot(x as nat),
{
    let mut p: usize = 1;
    let ghost mut k: nat = 0;
    proof {
        lemma_npot_bounds(x as nat);
    }
    while p < x
        invariant
            p == pow2(k),
            k == 0 || pow2((k - 1) as nat) < x,
            p <= npot(x as nat),
            npot(x as nat) <= usize::MAX,
        decreases npot(x as nat) - p,
    {
        proof {
            // p < x forces the ceiling of x up to at least 2p.
            lemma_pow2_pos(k);
            assert(pow2(k + 1) == 2 * pow2(k));
            lemma_npot_char((p + 1) as nat, k + 1);
            lemma_npot_mono((p + 1) as nat, x as nat);
        }
        p = p * 2;
        proof {
            k = k + 1;
        }
    }
    proof {
        lemma_npot_char(x as nat, k);
    }
    p
}

} // verus!
