//! Even spreading of a few extra units over a row of slots.
//!
//! When `n` extra units go to `size` slots and `n < size`, the row is cut
//! into `n` buckets of equal width and each unit goes to the middle of its
//! bucket, so that the chosen slots neither crowd the front nor the back.

use vstd::prelude::*;

verus! {

/// The slot that receives the `i`-th of `n` extra units among `size` slots.
///
/// With at least as many units as slots, unit `i` goes to slot `i`. With
/// fewer, it goes to the start of bucket `i`, `floor(i * size / n)`, moved on
/// by half a bucket, `floor(size / (2 * n))`.
pub open spec fn spread_index(n: int, size: int, i: int) -> int
    recommends
        0 < n,
        0 <= i < n,
{
    if n >= size {
        i
    } else {
        (i * size) / n + size / (2 * n)
    }
}

/// How many slots are chosen: every unit finds a slot of its own, until the
/// slots run out.
pub open spec fn spread_len(n: int, size: int) -> int {
    if n <= size {
        n
    } else {
        size
    }
}

/// Whether slot `k` is the slot of one of the first `j` units.
pub open spec fn spread_selects_within(n: int, size: int, j: int, k: int) -> bool {
    exists|i: int| 0 <= i < j && #[trigger] spread_index(n, size, i) == k
}

/// Whether slot `k` is one of the slots chosen for `n` units among `size`.
pub open spec fn spread_selects(n: int, size: int, k: int) -> bool {
    spread_selects_within(n, size, spread_len(n, size), k)
}

/// How many of the first `m` slots are chosen.
pub open spec fn selected_below(n: int, size: int, m: int) -> int
    decreases m,
{
    if m <= 0 {
        0
    } else {
        selected_below(n, size, m - 1) + if spread_selects(n, size, m - 1) {
            1int
        } else {
            0
        }
    }
}

/// Every chosen slot lies inside the row.
pub proof fn lemma_spread_index_in_range(n: int, size: int, i: int)
    requires
        0 < n,
        0 < size,
        0 <= i < spread_len(n, size),
    ensures
        0 <= spread_index(n, size, i) < size,
{
    if n < size {
        let a = (i * size) / n;
        let b = size / (2 * n);
        assert(0 <= a && n * a <= i * size) by (nonlinear_arith)
            requires
                0 < n,
                0 <= i,
                0 < size,
                a == (i * size) / n,
        ;
        assert(0 <= b && (2 * n) * b <= size) by (nonlinear_arith)
            requires
                0 < n,
                0 < size,
                b == size / (2 * n),
        ;
        assert(a + b < size) by (nonlinear_arith)
            requires
                0 < n,
                0 <= i < n,
                0 < size,
                n * a <= i * size,
                (2 * n) * b <= size,
        ;
    }
}

/// Evenness: with fewer units than slots, two neighbouring chosen slots lie
/// `floor(size / n)` or `floor(size / n) + 1` apart.
pub proof fn lemma_spread_step(n: int, size: int, i: int)
    requires
        0 < n < size,
        0 <= i,
        i + 1 < n,
    ensures
        spread_index(n, size, i + 1) - spread_index(n, size, i) == size / n || spread_index(
            n,
            size,
            i + 1,
        ) - spread_index(n, size, i) == size / n + 1,
        size / n >= 1,
{
    let x = i * size;
    let a0 = x / n;
    let a1 = ((i + 1) * size) / n;
    let q = size / n;
    assert((i + 1) * size == x + size) by (nonlinear_arith)
        requires
            x == i * size,
    ;
    assert(a1 == a0 + q || a1 == a0 + q + 1) by (nonlinear_arith)
        requires
            0 < n,
            0 <= x,
            0 < size,
            a0 == x / n,
            a1 == (x + size) / n,
            q == size / n,
    ;
    assert(q >= 1) by (nonlinear_arith)
        requires
            0 < n < size,
            q == size / n,
    ;
}

/// The chosen slots come in strictly rising order, so none is chosen twice.
pub proof fn lemma_spread_increasing(n: int, size: int, i: int, j: int)
    requires
        0 < n,
        0 < size,
        0 <= i < j < spread_len(n, size),
    ensures
        spread_index(n, size, i) < spread_index(n, size, j),
    decreases j - i,
{
    if n < size {
        if i + 1 < j {
            lemma_spread_increasing(n, size, i, j - 1);
        }
        lemma_spread_step(n, size, j - 1);
    }
}

proof fn lemma_selected_below_rank(n: int, size: int, m: int, j: int)
    requires
        0 <= n,
        0 <= m <= size,
        0 <= j <= spread_len(n, size),
        j > 0 ==> spread_index(n, size, j - 1) < m,
        j < spread_len(n, size) ==> spread_index(n, size, j) >= m,
    ensures
        selected_below(n, size, m) == j,
    decreases m,
{
    let len = spread_len(n, size);
    if m == 0 {
        if j > 0 {
            lemma_spread_index_in_range(n, size, j - 1);
        }
    } else if j > 0 && spread_index(n, size, j - 1) == m - 1 {
        if j - 1 > 0 {
            lemma_spread_increasing(n, size, j - 2, j - 1);
        }
        lemma_selected_below_rank(n, size, m - 1, j - 1);
        assert(spread_selects(n, size, m - 1));
    } else {
        assert forall|i: int| 0 <= i < len implies #[trigger] spread_index(n, size, i) != m
            - 1 by {
            if i < j {
                if i < j - 1 {
                    lemma_spread_increasing(n, size, i, j - 1);
                }
            } else if i > j {
                lemma_spread_increasing(n, size, j, i);
            }
        }
        lemma_selected_below_rank(n, size, m - 1, j);
        assert(!spread_selects(n, size, m - 1));
    }
}

/// Exactly as many slots are chosen as there are units to place, or all of
/// them where the units outnumber the slots.
pub proof fn lemma_spread_count(n: int, size: int)
    requires
        0 <= n,
        0 <= size,
    ensures
        selected_below(n, size, size) == spread_len(n, size),
{
    let len = spread_len(n, size);
    if len > 0 {
        lemma_spread_index_in_range(n, size, len - 1);
    }
    lemma_selected_below_rank(n, size, size, len);
}

/// The slots, in rising order, that receive one of `n` extra units spread
/// evenly over `size` slots; `None` when there is no unit or no slot.
pub fn get_index_spread(n: usize, size: usize) -> (out: Option<Vec<usize>>)
    ensures
        out is None <==> (n == 0 || size == 0),
        out matches Some(indices) ==> {
            &&& indices@.len() == spread_len(n as int, size as int)
            &&& forall|i: int|
                0 <= i < indices@.len() ==> #[trigger] indices@[i] as int == spread_index(
                    n as int,
                    size as int,
                    i,
                )
            &&& forall|i: int| 0 <= i < indices@.len() ==> #[trigger] indices@[i] < size
            &&& forall|i: int, j: int|
                0 <= i < j < indices@.len() ==> #[trigger] indices@[i] < #[trigger] indices@[j]
        },
{
    if size == 0 || n == 0 {
        return None;
    }
    let mut indices: Vec<usize> = Vec::new();
    if n >= size {
        let mut i: usize = 0;
        while i < size
            invariant
                i <= size <= n,
                indices@.len() == i,
                forall|k: int| 0 <= k < i ==> #[trigger] indices@[k] as int == k,
            decreases size - i,
        {
            indices.push(i);
            i += 1;
        }
    } else {
        let wide_n: u128 = n as u128;
        let wide_size: u128 = size as u128;
        let half: u128 = wide_size / (2 * wide_n);
        let mut i: usize = 0;
        while i < n
            invariant
                0 < n < size,
                i <= n,
                wide_n == n,
                wide_size == size,
                half == (size as int) / (2 * (n as int)),
                indices@.len() == i,
                forall|k: int|
                    0 <= k < i ==> #[trigger] indices@[k] as int == spread_index(
                        n as int,
                        size as int,
                        k,
                    ),
            decreases n - i,
        {
            proof {
                lemma_spread_index_in_range(n as int, size as int, i as int);
                assert(0 <= (i as int) * (size as int) <= (n as int) * (size as int))
                    by (nonlinear_arith)
                    requires
                        0 <= i <= n,
                        0 < size,
                ;
                assert((n as int) * (size as int) <= 0xffff_ffff_ffff_ffff
                    * 0xffff_ffff_ffff_ffff) by (nonlinear_arith)
                    requires
                        0 <= n <= 0xffff_ffff_ffff_ffff,
                        0 <= size <= 0xffff_ffff_ffff_ffff,
                ;
                assert(0 <= ((i as int) * (size as int)) / (n as int)) by (nonlinear_arith)
                    requires
                        0 <= (i as int) * (size as int),
                        0 < n,
                ;
            }
            let start: u128 = ((i as u128) * wide_size) / wide_n;
            let slot: u128 = start + half;
            indices.push(slot as usize);
            i += 1;
        }
    }
    proof {
        assert forall|i: int| 0 <= i < indices@.len() implies #[trigger] indices@[i] < size by {
            lemma_spread_index_in_range(n as int, size as int, i);
        }
        assert forall|i: int, j: int| 0 <= i < j < indices@.len() implies #[trigger] indices@[i]
            < #[trigger] indices@[j] by {
            lemma_spread_increasing(n as int, size as int, i, j);
        }
    }
    Some(indices)
}

} // verus!
