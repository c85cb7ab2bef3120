//! Grouping the opened rows of a batch of committed matrices by padded
//! height.

use vstd::prelude::*;

use crate::circuit::{CircuitError, PermConfig};
use crate::order::sort_tallest_first;
use crate::pow2::{
    lemma_npot_is_pow2, lemma_npot_mono, lemma_pow2_injective, lemma_pow2_mono, lemma_pow2_strict,
    next_power_of_two, npot, npot_log, pow2, pow2_usize,
};

verus! {

broadcast use vstd::seq_lib::group_to_multiset_ensures;

/// The width and height of a committed matrix.
#[derive(Clone, Copy, Debug, PartialEq, Eq, Structural)]
pub struct Dimensions {
    pub width: usize,
    pub height: usize,
}

/// The heights of a batch of matrices.
pub open spec fn heights_of(dims: Seq<Dimensions>) -> Seq<usize> {
    dims.map_values(|d: Dimensions| d.height)
}

/// The opened rows, as sequences.
pub open spec fn opened_rows<T>(openings: Seq<Vec<T>>) -> Seq<Seq<T>> {
    openings.map_values(|v: Vec<T>| v@)
}

/// Matrices whose heights round up to the same power of two have equal
/// heights.
pub open spec fn heights_consistent(h: Seq<usize>) -> bool {
    forall|j: int, k: int|
        0 <= j < h.len() && 0 <= k < h.len() && #[trigger] npot(h[j] as nat) == #[trigger] npot(
            h[k] as nat,
        ) ==> h[j] == h[k]
}

/// No matrix is taller than `2^max_height_log` once rounded up to a power
/// of two.
pub open spec fn heights_fit(h: Seq<usize>, max_height_log: nat) -> bool {
    forall|j: int| 0 <= j < h.len() ==> npot(#[trigger] h[j] as nat) <= pow2(max_height_log)
}

/// The rows of the matrices `0..k` whose height rounds up to `target`,
/// concatenated in index order.
pub open spec fn openings_at_height<T>(rows: Seq<Seq<T>>, h: Seq<usize>, target: nat, k: int) -> Seq<
    T,
>
    decreases k,
{
    if k <= 0 {
        Seq::empty()
    } else {
        openings_at_height(rows, h, target, k - 1) + if npot(h[k - 1] as nat) == target {
            rows[k - 1]
        } else {
            Seq::empty()
        }
    }
}

/// Entry `i` of the formatted openings: the rows of the matrices of padded
/// height `2^(max_height_log - i)`, in index order; every entry is empty where
/// some matrix is taller than `2^max_height_log`.
pub open spec fn formatted_level<T>(rows: Seq<Seq<T>>, h: Seq<usize>, max_height_log: nat, i: int) -> Seq<
    T,
> {
    if heights_fit(h, max_height_log) {
        openings_at_height(rows, h, pow2((max_height_log - i) as nat), h.len() as int)
    } else {
        Seq::empty()
    }
}

/// Every matrix whose rows are collected has an opened row: where the
/// batch passes the checks, each matrix of height at least 2 has an index
/// below `openings_len`.
pub open spec fn openings_cover_heights(openings_len: nat, h: Seq<usize>, max_height_log: nat) -> bool {
    (openings_len <= pow2(max_height_log) && heights_consistent(h) && heights_fit(
        h,
        max_height_log,
    )) ==> forall|j: int| 0 <= j < h.len() && h[j] >= 2 ==> j < openings_len
}

/// The rows at the positions `a..c` of the order `s`, concatenated.
spec fn rows_in_order<T>(rows: Seq<Seq<T>>, s: Seq<(usize, usize)>, a: int, c: int) -> Seq<T>
    decreases c - a,
{
    if c <= a {
        Seq::empty()
    } else {
        rows_in_order(rows, s, a, c - 1) + rows[s[c - 1].0 as int]
    }
}

/// The entries `(j, h[j])` for `j < n`.
spec fn height_entries(h: Seq<usize>, n: int) -> Seq<(usize, usize)> {
    Seq::new(n as nat, |j: int| (j as usize, h[j]))
}

/// What the tallest-first order gives: a rearrangement of the entries
/// `(j, h[j])`, heights non-increasing, and increasing indices among equal
/// heights.
spec fn tallest_first(s: Seq<(usize, usize)>, h: Seq<usize>) -> bool {
    &&& s.len() == h.len()
    &&& forall|p: int|
        0 <= p < s.len() ==> (#[trigger] s[p]).0 < h.len() && s[p].1 == h[s[p].0 as int]
    &&& forall|j: int| 0 <= j < h.len() ==> s.contains((j as usize, #[trigger] h[j]))
    &&& forall|p: int, q: int| 0 <= p < q < s.len() ==> (#[trigger] s[p]).1 >= (#[trigger] s[q]).1
    &&& forall|p: int, q: int|
        0 <= p < q < s.len() && (#[trigger] s[p]).1 == (#[trigger] s[q]).1 ==> s[p].0 < s[q].0
}

/// The order returned by the sort meets `tallest_first`.
proof fn lemma_sorted_entries(e: Seq<(usize, usize)>, s: Seq<(usize, usize)>, h: Seq<usize>)
    requires
        h.len() <= usize::MAX,
        e == height_entries(h, h.len() as int),
        s.to_multiset() == e.to_multiset(),
        forall|p: int, q: int| 0 <= p < q < s.len() ==> s[p].1 >= s[q].1,
        forall|p: int, q: int| 0 <= p < q < s.len() && s[p].1 == s[q].1 ==> s[p].0 < s[q].0,
    ensures
        tallest_first(s, h),
{
    assert(s.len() == e.len()) by {
        assert(s.len() == s.to_multiset().len());
        assert(e.len() == e.to_multiset().len());
    }
    assert forall|p: int| 0 <= p < s.len() implies (#[trigger] s[p]).0 < h.len() && s[p].1 == h[s[
        p
    ].0 as int] by {
        assert(s.contains(s[p]));
        assert(s.to_multiset().count(s[p]) > 0);
        assert(e.contains(s[p]));
        let j = choose|j: int| 0 <= j < e.len() && e[j] == s[p];
        assert(e[j] == (j as usize, h[j]));
    }
    assert forall|j: int| 0 <= j < h.len() implies s.contains((j as usize, #[trigger] h[j])) by {
        assert(e[j] == (j as usize, h[j]));
        assert(e.contains(e[j]));
        assert(e.to_multiset().count(e[j]) > 0);
    }
}

/// Adjacent positions of a tallest-first order that round up alike have
/// equal heights everywhere between two positions that round up alike.
proof fn lemma_adjacent_chain(s: Seq<(usize, usize)>, h: Seq<usize>, a: int, b: int)
    requires
        tallest_first(s, h),
        0 <= a <= b < s.len(),
        npot(s[a].1 as nat) == npot(s[b].1 as nat),
        forall|q: int|
            0 <= q < s.len() - 1 ==> (#[trigger] s[q]).1 == s[q + 1].1 || npot(s[q].1 as nat)
                != npot(s[q + 1].1 as nat),
    ensures
        s[a].1 == s[b].1,
    decreases b - a,
{
    if a < b {
        assert(s[a].1 >= s[a + 1].1);
        if a + 1 < b {
            assert(s[a + 1].1 >= s[b].1);
        }
        lemma_npot_mono(s[a + 1].1 as nat, s[a].1 as nat);
        lemma_npot_mono(s[b].1 as nat, s[a + 1].1 as nat);
        assert(s[a].1 == s[a + 1].1 || npot(s[a].1 as nat) != npot(s[a + 1].1 as nat));
        lemma_adjacent_chain(s, h, a + 1, b);
    }
}

/// Checking adjacent pairs of a tallest-first order decides consistency.
proof fn lemma_adjacent_consistent(s: Seq<(usize, usize)>, h: Seq<usize>)
    requires
        tallest_first(s, h),
        forall|q: int|
            0 <= q < s.len() - 1 ==> (#[trigger] s[q]).1 == s[q + 1].1 || npot(s[q].1 as nat)
                != npot(s[q + 1].1 as nat),
    ensures
        heights_consistent(h),
{
    assert forall|j: int, k: int|
        0 <= j < h.len() && 0 <= k < h.len() && #[trigger] npot(h[j] as nat) == #[trigger] npot(
            h[k] as nat,
        ) implies h[j] == h[k] by {
        assert(s.contains((j as usize, h[j])));
        assert(s.contains((k as usize, h[k])));
        let pj = choose|p: int| 0 <= p < s.len() && s[p] == (j as usize, h[j]);
        let pk = choose|p: int| 0 <= p < s.len() && s[p] == (k as usize, h[k]);
        if pj <= pk {
            lemma_adjacent_chain(s, h, pj, pk);
        } else {
            lemma_adjacent_chain(s, h, pk, pj);
        }
    }
}

/// The rows at a block of positions of the order, whose indices increase
/// and are exactly the matrices `j < k` of padded height `target`, are the
/// openings at that height.
proof fn lemma_block_rows<T>(
    rows: Seq<Seq<T>>,
    h: Seq<usize>,
    s: Seq<(usize, usize)>,
    target: nat,
    a: int,
    b: int,
    k: int,
)
    requires
        0 <= a <= b <= s.len(),
        0 <= k <= h.len(),
        forall|p: int|
            a <= p < b ==> (#[trigger] s[p]).0 < k && npot(h[s[p].0 as int] as nat) == target,
        forall|p: int, q: int| a <= p < q < b ==> (#[trigger] s[p]).0 < (#[trigger] s[q]).0,
        forall|j: int|
            0 <= j < k && npot(#[trigger] h[j] as nat) == target ==> exists|p: int|
                a <= p < b && (#[trigger] s[p]).0 == j,
    ensures
        rows_in_order(rows, s, a, b) == openings_at_height(rows, h, target, k),
    decreases k,
{
    if k == 0 {
        if a < b {
            assert(s[a].0 < 0);
        }
        assert(rows_in_order(rows, s, a, b) == Seq::<T>::empty());
    } else if npot(h[k - 1] as nat) == target {
        let p = choose|p: int| a <= p < b && (#[trigger] s[p]).0 == k - 1;
        if p < b - 1 {
            assert(s[p].0 < s[b - 1].0);
        }
        assert(s[b - 1].0 == k - 1);
        assert forall|j: int|
            0 <= j < k - 1 && npot(#[trigger] h[j] as nat) == target implies exists|p2: int|
            a <= p2 < b - 1 && (#[trigger] s[p2]).0 == j by {
            let p2 = choose|p2: int| a <= p2 < b && (#[trigger] s[p2]).0 == j;
            assert(p2 != b - 1);
        }
        assert forall|p2: int| a <= p2 < b - 1 implies (#[trigger] s[p2]).0 < k - 1 && npot(
            h[s[p2].0 as int] as nat,
        ) == target by {
            assert(s[p2].0 < s[b - 1].0);
        }
        lemma_block_rows(rows, h, s, target, a, b - 1, k - 1);
    } else {
        assert forall|p2: int| a <= p2 < b implies (#[trigger] s[p2]).0 < k - 1 && npot(
            h[s[p2].0 as int] as nat,
        ) == target by {
            assert(s[p2].0 != k - 1);
        }
        lemma_block_rows(rows, h, s, target, a, b, k - 1);
        assert(openings_at_height(rows, h, target, k) =~= openings_at_height(
            rows,
            h,
            target,
            k - 1,
        ));
    }
}

/// A padded height strictly below the power of two `2^b` is at most `2^(b-1)`.
proof fn lemma_npot_below(x: nat, b: nat)
    requires
        npot(x) < pow2(b),
        b >= 1,
    ensures
        npot(x) <= pow2((b - 1) as nat),
{
    lemma_npot_is_pow2(x);
    if npot_log(x) >= b {
        lemma_pow2_mono(b, npot_log(x));
    }
    lemma_pow2_mono(npot_log(x), (b - 1) as nat);
}

/// Appends a copy of `src` to `dst`.
fn append_copies<T: Copy>(dst: &mut Vec<T>, src: &Vec<T>)
    ensures
        final(dst)@ == old(dst)@ + src@,
{
    let mut t: usize = 0;
    while t < src.len()
        invariant
            t <= src.len(),
            dst@ == old(dst)@ + src@.subrange(0, t as int),
        decreases src.len() - t,
    {
        let x = src[t];
        dst.push(x);
        t = t + 1;
        proof {
            assert(src@.subrange(0, t as int) =~= src@.subrange(0, t - 1).push(x));
        }
    }
    proof {
        assert(src@.subrange(0, src.len() as int) =~= src@);
    }
}

/// Groups the opened rows of a batch of matrices by padded height: entry `i`
/// of the result holds, in index order, the rows of the matrices whose height
/// rounds up to `2^(max_height_log - i)`; heights that occur nowhere get an
/// empty entry, and so do all entries where some matrix is taller than
/// `2^max_height_log`. Fails where there are more openings than
/// `2^max_height_log`, or where two matrices of different heights round up
/// to the same power of two.
pub fn format_openings<T: Copy>(
    openings: &[Vec<T>],
    dimensions: &[Dimensions],
    max_height_log: usize,
    permutation_config: PermConfig,
) -> (r: Result<Vec<Vec<T>>, CircuitError>)
    requires
        pow2(max_height_log as nat) <= usize::MAX,
        forall|j: int|
            0 <= j < dimensions@.len() ==> npot(#[trigger] dimensions@[j].height as nat)
                <= usize::MAX,
        openings_cover_heights(
            openings@.len(),
            heights_of(dimensions@),
            max_height_log as nat,
        ),
    ensures
        openings@.len() > pow2(max_height_log as nat) ==> r == Err::<Vec<Vec<T>>, CircuitError>(
            CircuitError::IncorrectNonPrimitiveOpPrivateDataSize {
                op: permutation_config.spec_npo_type_id(),
                expected_at_most: max_height_log,
                got: openings.len(),
            },
        ),
        openings@.len() <= pow2(max_height_log as nat) && !heights_consistent(
            heights_of(dimensions@),
        ) ==> r == Err::<Vec<Vec<T>>, CircuitError>(CircuitError::InconsistentMatrixHeights),
        openings@.len() <= pow2(max_height_log as nat) && heights_consistent(
            heights_of(dimensions@),
        ) ==> (r matches Ok(formatted) && formatted@.len() == max_height_log && forall|i: int|
            0 <= i < max_height_log ==> (#[trigger] formatted@[i])@ == formatted_level(
                opened_rows(openings@),
                heights_of(dimensions@),
                max_height_log as nat,
                i,
            )),
{
    let max_height = pow2_usize(max_height_log);
    if openings.len() > max_height {
        return Err(
            CircuitError::IncorrectNonPrimitiveOpPrivateDataSize {
                op: permutation_config.npo_type_id(),
                expected_at_most: max_height_log,
                got: openings.len(),
            },
        );
    }
    let ghost h = heights_of(dimensions@);
    let ghost rows = opened_rows(openings@);
    let n = dimensions.len();
    let mut entries: Vec<(usize, usize)> = Vec::new();
    let mut j: usize = 0;
    while j < n
        invariant
            j <= n,
            n == dimensions@.len(),
            h == heights_of(dimensions@),
            entries@ == height_entries(h, j as int),
        decreases n - j,
    {
        entries.push((j, dimensions[j].height));
        j = j + 1;
        proof {
            assert(entries@ =~= height_entries(h, j as int));
        }
    }
    let ghost e = entries@;
    let sorted = sort_tallest_first(entries);
    let ghost s = sorted@;
    proof {
        lemma_sorted_entries(e, s, h);
    }
    // Matrix heights that round up to the same power of two must be equal.
    let mut p: usize = 0;
    while n > 0 && p < n - 1
        invariant
            n == s.len(),
            openings@.len() <= pow2(max_height_log as nat),
            tallest_first(s, h),
            sorted@ == s,
            h == heights_of(dimensions@),
            forall|j: int| 0 <= j < h.len() ==> npot(#[trigger] h[j] as nat) <= usize::MAX,
            p <= n,
            forall|q: int|
                0 <= q < p && q < n - 1 ==> (#[trigger] s[q]).1 == s[q + 1].1 || npot(
                    s[q].1 as nat,
                ) != npot(s[q + 1].1 as nat),
        decreases n - p,
    {
        let curr = sorted[p].1;
        let next = sorted[p + 1].1;
        proof {
            assert(npot(h[s[p as int].0 as int] as nat) <= usize::MAX);
            assert(npot(h[s[p + 1].0 as int] as nat) <= usize::MAX);
        }
        if !(curr == next || next_power_of_two(curr) != next_power_of_two(next)) {
            proof {
                let a = s[p as int].0 as int;
                let b = s[p + 1].0 as int;
                assert(npot(h[a] as nat) == npot(h[b] as nat) && h[a] != h[b]);
            }
            return Err(CircuitError::InconsistentMatrixHeights);
        }
        p = p + 1;
    }
    proof {
        lemma_adjacent_consistent(s, h);
    }
    let ghost fits = heights_fit(h, max_height_log as nat);
    proof {
        assert forall|q: int| 0 <= q < n implies npot((#[trigger] s[q]).1 as nat) <= usize::MAX by {
            assert(npot(h[s[q].0 as int] as nat) <= usize::MAX);
        }
        if !fits {
            let j = choose|j: int| 0 <= j < h.len() && !(npot(#[trigger] h[j] as nat) <= pow2(
                max_height_log as nat,
            ));
            assert(s.contains((j as usize, h[j])));
            let pj = choose|p: int| 0 <= p < s.len() && s[p] == (j as usize, h[j]);
            if pj > 0 {
                assert(s[0].1 >= s[pj].1);
            }
            lemma_npot_mono(s[pj].1 as nat, s[0].1 as nat);
        } else {
            assert forall|q: int| 0 <= q < n implies npot((#[trigger] s[q]).1 as nat) <= pow2(
                max_height_log as nat,
            ) by {
                assert(npot(h[s[q].0 as int] as nat) <= pow2(max_height_log as nat));
            }
        }
    }
    let mut formatted: Vec<Vec<T>> = Vec::new();
    let mut cursor: usize = 0;
    let mut i: usize = 0;
    while i < max_height_log
        invariant
            n == s.len(),
            n == dimensions@.len(),
            tallest_first(s, h),
            heights_consistent(h),
            sorted@ == s,
            h == heights_of(dimensions@),
            rows == opened_rows(openings@),
            fits == heights_fit(h, max_height_log as nat),
            forall|j: int| 0 <= j < h.len() ==> npot(#[trigger] h[j] as nat) <= usize::MAX,
            pow2(max_height_log as nat) <= usize::MAX,
            openings_cover_heights(openings@.len(), h, max_height_log as nat),
            openings@.len() <= pow2(max_height_log as nat),
            i <= max_height_log,
            cursor <= n,
            formatted@.len() == i,
            forall|i2: int|
                0 <= i2 < i ==> (#[trigger] formatted@[i2])@ == formatted_level(
                    rows,
                    h,
                    max_height_log as nat,
                    i2,
                ),
            fits ==> forall|q: int|
                0 <= q < cursor ==> npot((#[trigger] s[q]).1 as nat) > pow2(
                    (max_height_log - i) as nat,
                ),
            fits ==> forall|q: int|
                cursor <= q < n ==> npot((#[trigger] s[q]).1 as nat) <= pow2(
                    (max_height_log - i) as nat,
                ),
            !fits ==> cursor == 0 && n > 0 && npot(s[0].1 as nat) > pow2(max_height_log as nat),
            forall|q: int| 0 <= q < n ==> npot((#[trigger] s[q]).1 as nat) <= usize::MAX,
        decreases max_height_log - i,
    {
        proof {
            lemma_pow2_mono((max_height_log - i) as nat, max_height_log as nat);
        }
        let curr_height = pow2_usize(max_height_log - i);
        let ghost start = cursor;
        let mut level: Vec<T> = Vec::new();
        while cursor < n && next_power_of_two(sorted[cursor].1) == curr_height
            invariant
                n == s.len(),
                tallest_first(s, h),
                sorted@ == s,
                h == heights_of(dimensions@),
                rows == opened_rows(openings@),
                forall|j: int| 0 <= j < h.len() ==> npot(#[trigger] h[j] as nat) <= usize::MAX,
                openings_cover_heights(openings@.len(), h, max_height_log as nat),
                openings@.len() <= pow2(max_height_log as nat),
                heights_consistent(h),
                fits == heights_fit(h, max_height_log as nat),
                !fits ==> cursor == 0 && n > 0 && npot(s[0].1 as nat) > curr_height,
                forall|q: int| 0 <= q < n ==> npot((#[trigger] s[q]).1 as nat) <= usize::MAX,
                curr_height == pow2((max_height_log - i) as nat),
                i < max_height_log,
                start <= cursor <= n,
                forall|q: int| start <= q < cursor ==> npot((#[trigger] s[q]).1 as nat) == curr_height,
                level@ == rows_in_order(rows, s, start as int, cursor as int),
            decreases n - cursor,
        {
            let idx = sorted[cursor].0;
            proof {
                lemma_pow2_strict(0, (max_height_log - i) as nat);
                assert(h[idx as int] == s[cursor as int].1);
                if h[idx as int] < 2 {
                    assert(npot(h[idx as int] as nat) == 1);
                }
            }
            append_copies(&mut level, &openings[idx]);
            cursor = cursor + 1;
        }
        proof {
            if fits {
                let target = curr_height as nat;
                // The positions rounding up to the current height are exactly start..cursor.
                if cursor < n {
                    assert(npot(s[cursor as int].1 as nat) < target);
                    assert forall|q: int| cursor <= q < n implies npot((#[trigger] s[q]).1 as nat)
                        < target by {
                        if q > cursor {
                            assert(s[cursor as int].1 >= s[q].1);
                        }
                        lemma_npot_mono(s[q].1 as nat, s[cursor as int].1 as nat);
                    }
                }
                assert forall|q: int, r: int|
                    start <= q < r < cursor implies (#[trigger] s[q]).0 < (#[trigger] s[r]).0 by {
                    assert(npot(h[s[q].0 as int] as nat) == npot(h[s[r].0 as int] as nat));
                }
                assert forall|j: int|
                    0 <= j < n && npot(#[trigger] h[j] as nat) == target implies exists|q: int|
                    start <= q < cursor && (#[trigger] s[q]).0 == j by {
                    assert(s.contains((j as usize, h[j])));
                    let q = choose|q: int| 0 <= q < s.len() && s[q] == (j as usize, h[j]);
                    assert(s[q].0 == j);
                }
                assert forall|q: int| start <= q < cursor implies (#[trigger] s[q]).0 < n && npot(
                    h[s[q].0 as int] as nat,
                ) == target by {}
                lemma_block_rows(rows, h, s, target, start as int, cursor as int, n as int);
                // Positions past the cursor round up to at most half the current height.
                assert forall|q: int| cursor <= q < n implies npot((#[trigger] s[q]).1 as nat)
                    <= pow2((max_height_log - (i + 1)) as nat) by {
                    lemma_npot_below(s[q].1 as nat, (max_height_log - i) as nat);
                }
                assert forall|q: int| 0 <= q < cursor implies npot((#[trigger] s[q]).1 as nat)
                    > pow2((max_height_log - (i + 1)) as nat) by {
                    lemma_pow2_strict((max_height_log - (i + 1)) as nat, (max_height_log - i) as nat);
                }
            } else {
                assert(cursor == start);
                assert(level@ =~= Seq::<T>::empty());
            }
        }
        formatted.push(level);
        i = i + 1;
    }
    Ok(formatted)
}


/// The number of values in the entries `0..m` of the formatted openings.
pub open spec fn levels_total<T>(rows: Seq<Seq<T>>, h: Seq<usize>, max_height_log: nat, m: int) -> nat
    decreases m,
{
    if m <= 0 {
        0
    } else {
        levels_total(rows, h, max_height_log, m - 1) + formatted_level(
            rows,
            h,
            max_height_log,
            m - 1,
        ).len()
    }
}

/// The number of values in the rows of the matrices `0..k` of height at
/// least 2.
pub open spec fn collected_total<T>(rows: Seq<Seq<T>>, h: Seq<usize>, k: int) -> nat
    decreases k,
{
    if k <= 0 {
        0
    } else {
        collected_total(rows, h, k - 1) + if h[k - 1] >= 2 {
            rows[k - 1].len()
        } else {
            0
        }
    }
}

/// The number of values at the heights `2^(max_height_log - i)`, `i < m`,
/// among the matrices `0..k`.
spec fn heights_total<T>(rows: Seq<Seq<T>>, h: Seq<usize>, max_height_log: nat, k: int, m: int) -> nat
    decreases m,
{
    if m <= 0 {
        0
    } else {
        heights_total(rows, h, max_height_log, k, m - 1) + openings_at_height(
            rows,
            h,
            pow2((max_height_log - (m - 1)) as nat),
            k,
        ).len()
    }
}

/// Adding matrix `k - 1` adds its row to the one level `i < m` whose
/// height it rounds up to, if any.
proof fn lemma_heights_total_step<T>(
    rows: Seq<Seq<T>>,
    h: Seq<usize>,
    max_height_log: nat,
    k: int,
    m: int,
)
    requires
        1 <= k <= h.len(),
        0 <= m <= max_height_log,
    ensures
        heights_total(rows, h, max_height_log, k, m) == heights_total(
            rows,
            h,
            max_height_log,
            k - 1,
            m,
        ) + if max_height_log - npot_log(h[k - 1] as nat) < m && npot_log(h[k - 1] as nat)
            <= max_height_log {
            rows[k - 1].len()
        } else {
            0
        },
    decreases m,
{
    if m > 0 {
        lemma_heights_total_step(rows, h, max_height_log, k, m - 1);
        let e = npot_log(h[k - 1] as nat);
        lemma_npot_is_pow2(h[k - 1] as nat);
        let level = (max_height_log - (m - 1)) as nat;
        if pow2(level) == npot(h[k - 1] as nat) {
            lemma_pow2_injective(level, e);
        } else if level == e {
        }
    }
}

/// Formatting keeps every opened row that it can place: where no matrix is
/// taller than `2^max_height_log`, the entries hold exactly as many values as
/// the rows of all matrices of height at least 2 (the rows of matrices of
/// height 0 or 1 have no entry).
pub proof fn lemma_format_openings_keeps_every_row<T>(
    rows: Seq<Seq<T>>,
    h: Seq<usize>,
    max_height_log: nat,
)
    requires
        heights_fit(h, max_height_log),
    ensures
        levels_total(rows, h, max_height_log, max_height_log as int) == collected_total(
            rows,
            h,
            h.len() as int,
        ),
{
    lemma_levels_total_is_heights_total(rows, h, max_height_log, max_height_log as int);
    lemma_heights_total_collects(rows, h, max_height_log, h.len() as int);
}

proof fn lemma_levels_total_is_heights_total<T>(
    rows: Seq<Seq<T>>,
    h: Seq<usize>,
    max_height_log: nat,
    m: int,
)
    requires
        heights_fit(h, max_height_log),
    ensures
        levels_total(rows, h, max_height_log, m) == heights_total(
            rows,
            h,
            max_height_log,
            h.len() as int,
            m,
        ),
    decreases m,
{
    if m > 0 {
        lemma_levels_total_is_heights_total(rows, h, max_height_log, m - 1);
    }
}

proof fn lemma_heights_total_collects<T>(
    rows: Seq<Seq<T>>,
    h: Seq<usize>,
    max_height_log: nat,
    k: int,
)
    requires
        heights_fit(h, max_height_log),
        0 <= k <= h.len(),
    ensures
        heights_total(rows, h, max_height_log, k, max_height_log as int) == collected_total(
            rows,
            h,
            k,
        ),
    decreases k,
{
    if k == 0 {
        lemma_heights_total_empty(rows, h, max_height_log, max_height_log as int);
    } else {
        lemma_heights_total_collects(rows, h, max_height_log, k - 1);
        lemma_heights_total_step(rows, h, max_height_log, k, max_height_log as int);
        let x = h[k - 1] as nat;
        let e = npot_log(x);
        lemma_npot_is_pow2(x);
        // The matrix fits, so its exponent is at most max_height_log.
        if e > max_height_log {
            lemma_pow2_strict(max_height_log, e);
        }
        // Its exponent is positive exactly when its height is at least 2.
        if x >= 2 {
            assert(e == 1 + npot_log(((x + 1) / 2) as nat));
        } else {
            assert(e == 0);
        }
    }
}

proof fn lemma_heights_total_empty<T>(rows: Seq<Seq<T>>, h: Seq<usize>, max_height_log: nat, m: int)
    ensures
        heights_total(rows, h, max_height_log, 0, m) == 0,
    decreases m,
{
    if m > 0 {
        lemma_heights_total_empty(rows, h, max_height_log, m - 1);
    }
}


/// Heights that no matrix rounds up to get an empty entry.
pub proof fn lemma_missing_heights_empty<T>(
    rows: Seq<Seq<T>>,
    h: Seq<usize>,
    max_height_log: nat,
    i: int,
)
    requires
        forall|j: int| 0 <= j < h.len() ==> npot(#[trigger] h[j] as nat) != pow2(
            (max_height_log - i) as nat,
        ),
    ensures
        formatted_level(rows, h, max_height_log, i) == Seq::<T>::empty(),
{
    lemma_no_openings_at_height(rows, h, pow2((max_height_log - i) as nat), h.len() as int);
}

proof fn lemma_no_openings_at_height<T>(rows: Seq<Seq<T>>, h: Seq<usize>, target: nat, k: int)
    requires
        k <= h.len(),
        forall|j: int| 0 <= j < h.len() ==> npot(#[trigger] h[j] as nat) != target,
    ensures
        openings_at_height(rows, h, target, k) == Seq::<T>::empty(),
    decreases k,
{
    if k > 0 {
        lemma_no_openings_at_height(rows, h, target, k - 1);
        assert(npot(h[k - 1] as nat) != target);
        assert(openings_at_height(rows, h, target, k) =~= Seq::<T>::empty());
    }
}

} // verus!
