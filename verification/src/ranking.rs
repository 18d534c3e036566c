use vstd::prelude::*;

verus! {

/// Position `j` ranks ahead of position `i`: its weight is smaller, or the
/// weights are equal and `j` comes later.
pub open spec fn precedes(w: Seq<u32>, j: int, i: int) -> bool {
    w[j] < w[i] || (w[j] == w[i] && j > i)
}

/// How many of the positions `0..m` rank ahead of position `i`.
pub open spec fn rank_among(w: Seq<u32>, i: int, m: int) -> nat
    decreases m,
{
    if m <= 0 {
        0
    } else {
        rank_among(w, i, m - 1) + if precedes(w, m - 1, i) { 1nat } else { 0nat }
    }
}

/// How many positions a selection of the first `m` weights holds.
pub open spec fn kept(m: int) -> int {
    if m < 5 { m } else { 5 }
}

/// `r` is the selection of the five best-ranked of the first `m` weights:
/// the position of rank `q` stands in slot `4 - q`, and the slots that no
/// position fills (when `m < 5`) hold `-1`.
pub open spec fn is_top_five(w: Seq<u32>, m: int, r: Seq<isize>) -> bool {
    &&& r.len() == 5
    &&& forall|k: int| 0 <= k < 5 - kept(m) ==> r[k] == -1
    &&& forall|k: int|
        5 - kept(m) <= k < 5 ==> 0 <= #[trigger] r[k] < m && rank_among(w, r[k] as int, m) == 4 - k
}

proof fn lemma_rank_bounded(w: Seq<u32>, i: int, m: int)
    requires
        0 <= m,
    ensures
        rank_among(w, i, m) <= m,
    decreases m,
{
    if m > 0 {
        lemma_rank_bounded(w, i, m - 1);
    }
}

/// Counting is monotone: where every position ahead of `a` is also ahead
/// of `b`, `b` has at least the rank of `a`; strictly more where some
/// position below `m` is ahead of `b` and not of `a`.
proof fn lemma_rank_monotone(w: Seq<u32>, a: int, b: int, m: int, extra: int)
    requires
        0 <= m,
        forall|j: int| 0 <= j < m && #[trigger] precedes(w, j, a) ==> precedes(w, j, b),
    ensures
        rank_among(w, a, m) <= rank_among(w, b, m),
        0 <= extra < m && precedes(w, extra, b) && !precedes(w, extra, a) ==> rank_among(w, a, m)
            < rank_among(w, b, m),
    decreases m,
{
    if m > 0 {
        lemma_rank_monotone(w, a, b, m - 1, extra);
    }
}

/// A position ahead of another within the prefix has a smaller rank there.
proof fn lemma_precedes_lowers_rank(w: Seq<u32>, a: int, b: int, m: int)
    requires
        0 <= a < m,
        a < w.len(),
        b < w.len(),
        0 <= b,
        precedes(w, a, b),
    ensures
        rank_among(w, a, m) < rank_among(w, b, m),
{
    assert forall|j: int| 0 <= j < m && #[trigger] precedes(w, j, a) implies precedes(w, j, b) by {}
    lemma_rank_monotone(w, a, b, m, a);
}

/// No position below `m` is ahead of a position of rank zero.
proof fn lemma_rank_zero(w: Seq<u32>, i: int, m: int, j: int)
    requires
        rank_among(w, i, m) == 0,
        0 <= j < m,
    ensures
        !precedes(w, j, i),
    decreases m,
{
    if m - 1 > j {
        lemma_rank_zero(w, i, m - 1, j);
    }
}

/// Distinct positions below `m` have distinct ranks there.
proof fn lemma_rank_injective(w: Seq<u32>, a: int, b: int, m: int)
    requires
        0 <= a < m,
        0 <= b < m,
        m <= w.len(),
        a != b,
    ensures
        rank_among(w, a, m) != rank_among(w, b, m),
{
    if precedes(w, a, b) {
        lemma_precedes_lowers_rank(w, a, b, m);
    } else {
        lemma_precedes_lowers_rank(w, b, a, m);
    }
}

/// One step of the selection: the five best of `w[0..m]` in `r`, the
/// weight at `m` inserted where it belongs.
proof fn lemma_insert_step(w: Seq<u32>, m: int, r: Seq<isize>, s: int, r2: Seq<isize>)
    requires
        0 <= m < w.len(),
        is_top_five(w, m, r),
        -1 <= s <= 4,
        forall|p: int| s < p <= 4 ==> r[p] != -1 && precedes(w, r[p] as int, m),
        s >= 0 ==> r[s] == -1 || !precedes(w, r[s] as int, m),
        s == -1 ==> r2 == r,
        s >= 0 ==> r2.len() == 5 && r2[s] == m && (forall|p: int| 0 <= p < s ==> r2[p] == r[p + 1])
            && (forall|p: int| s < p < 5 ==> r2[p] == r[p]),
    ensures
        is_top_five(w, m + 1, r2),
{
    let rm = rank_among(w, m, m);
    lemma_rank_bounded(w, m, m);
    // positions of the selection that rank ahead of m have smaller ranks
    if s < 4 {
        lemma_precedes_lowers_rank(w, r[s + 1] as int, m, m);
        assert(rm >= 4 - s);
    }
    if s >= 0 {
        if r[s] == -1 {
            assert(m < 5);
            assert(rm == 4 - s);
        } else {
            let t = r[s] as int;
            assert(precedes(w, m, t));
            assert forall|j: int| 0 <= j < m && #[trigger] precedes(w, j, m) implies precedes(w, j, t) by {}
            lemma_rank_monotone(w, m, t, m, 0);
            assert(rm == 4 - s);
        }
        assert forall|k: int| 5 - kept(m + 1) <= k < 5 implies 0 <= #[trigger] r2[k] < m + 1
            && rank_among(w, r2[k] as int, m + 1) == 4 - k by {
            if k < s {
                let t = r[k + 1] as int;
                assert(5 - kept(m) <= k + 1);
                if precedes(w, t, m) {
                    lemma_precedes_lowers_rank(w, t, m, m);
                }
                assert(precedes(w, m, t));
            } else if k > s {
                assert(precedes(w, r[k] as int, m));
            }
        }
    } else {
        assert(kept(m) == 5);
        assert forall|k: int| 0 <= k < 5 implies 0 <= #[trigger] r2[k] < m + 1 && rank_among(
            w,
            r2[k] as int,
            m + 1,
        ) == 4 - k by {
            assert(precedes(w, r[k] as int, m));
        }
    }
}

/// The selection the scale search keeps: the positions of the five
/// smallest weights, the smallest in the last slot (of equal weights, the
/// later position ranks ahead), `-1` in slots that no weight fills.
pub fn select_top_five(weights: &Vec<u32>) -> (top_five: Vec<isize>)
    requires
        weights.len() <= isize::MAX,
    ensures
        is_top_five(weights@, weights.len() as int, top_five@),
{
    let ghost w = weights@;
    let mut top_five: Vec<isize> = vec![-1, -1, -1, -1, -1];
    let n = weights.len();
    let mut i: usize = 0;
    while i < n
        invariant
            w == weights@,
            n == w.len(),
            n <= isize::MAX,
            0 <= i <= n,
            is_top_five(w, i as int, top_five@),
        decreases n - i,
    {
        let mut slot: isize = 4;
        while slot != -1 && top_five[slot as usize] != -1 && weights[i] > weights[top_five[
            slot as usize] as usize]
            invariant
                w == weights@,
                n == w.len(),
                0 <= i < n,
                is_top_five(w, i as int, top_five@),
                -1 <= slot <= 4,
                forall|p: int|
                    slot < p <= 4 ==> top_five@[p] != -1 && precedes(w, top_five@[p] as int, i as int),
            decreases slot + 1,
        {
            slot = slot - 1;
        }
        let ghost before = top_five@;
        if slot != -1 {
            let mut k: isize = 0;
            while k < slot
                invariant
                    0 <= k <= slot <= 4,
                    top_five@.len() == 5,
                    forall|p: int| 0 <= p < k ==> top_five@[p] == before[p + 1],
                    forall|p: int| k <= p < 5 ==> top_five@[p] == before[p],
                decreases slot - k,
            {
                let next = top_five[(k + 1) as usize];
                top_five.set(k as usize, next);
                k = k + 1;
            }
            top_five.set(slot as usize, i as isize);
        }
        proof {
            lemma_insert_step(w, i as int, before, slot as int, top_five@);
        }
        i = i + 1;
    }
    top_five
}

/// The selection is determined by the weights: two selections of the
/// same weights are equal.
pub proof fn lemma_top_five_unique(w: Seq<u32>, r1: Seq<isize>, r2: Seq<isize>)
    requires
        is_top_five(w, w.len() as int, r1),
        is_top_five(w, w.len() as int, r2),
    ensures
        r1 == r2,
{
    let m = w.len() as int;
    assert forall|k: int| 0 <= k < 5 implies r1[k] == r2[k] by {
        if 5 - kept(m) <= k && r1[k] != r2[k] {
            lemma_rank_injective(w, r1[k] as int, r2[k] as int, m);
        }
    }
    assert(r1 =~= r2);
}

/// The last slot holds the position of a smallest weight, the last such
/// position; this is the scale the search settles on.
pub proof fn lemma_top_five_last_is_minimum(w: Seq<u32>, r: Seq<isize>)
    requires
        w.len() > 0,
        is_top_five(w, w.len() as int, r),
    ensures
        0 <= r[4] < w.len(),
        forall|j: int| 0 <= j < w.len() ==> w[r[4] as int] <= #[trigger] w[j],
        forall|j: int| 0 <= j < w.len() && #[trigger] w[j] == w[r[4] as int] ==> j <= r[4],
{
    let m = w.len() as int;
    assert(5 - kept(m) <= 4);
    assert(0 <= r[4] < m);
    assert forall|j: int| 0 <= j < m implies w[r[4] as int] <= #[trigger] w[j] by {
        lemma_rank_zero(w, r[4] as int, m, j);
    }
    assert forall|j: int| 0 <= j < m && #[trigger] w[j] == w[r[4] as int] implies j <= r[4] by {
        lemma_rank_zero(w, r[4] as int, m, j);
    }
}

/// Of two positions, the one of smaller rank ranks ahead.
proof fn lemma_smaller_rank_precedes(w: Seq<u32>, a: int, b: int, m: int)
    requires
        0 <= a < m,
        0 <= b < m,
        m <= w.len(),
        rank_among(w, a, m) < rank_among(w, b, m),
    ensures
        a != b,
        precedes(w, a, b),
{
    if precedes(w, b, a) {
        lemma_precedes_lowers_rank(w, b, a, m);
    }
}

/// Every position the selection leaves out has a weight no smaller than
/// any it keeps, and on equal weights an earlier position than the one
/// kept; the slots fill up from the last one, all five once there are
/// five weights.
pub proof fn lemma_top_five_keeps_best(w: Seq<u32>, r: Seq<isize>, j: int, k: int)
    requires
        is_top_five(w, w.len() as int, r),
        0 <= j < w.len(),
        0 <= k < 5,
        r[k] != -1,
        forall|q: int| 0 <= q < 5 ==> r[q] != j,
    ensures
        w[r[k] as int] < w[j] || (w[r[k] as int] == w[j] && r[k] > j),
        w.len() >= 5 ==> forall|q: int| 0 <= q < 5 ==> r[q] >= 0,
        w.len() < 5 ==> forall|q: int| 0 <= q < 5 ==> (r[q] == -1 <==> q < 5 - w.len()),
{
    let m = w.len() as int;
    lemma_rank_bounded(w, j, m);
    let rj = rank_among(w, j, m);
    if rj < kept(m) {
        // the slot of rank rj holds a position of that rank, which is j
        let q = 4 - rj;
        assert(5 - kept(m) <= q < 5);
        if r[q] != j {
            lemma_rank_injective(w, r[q] as int, j, m);
        }
        assert(false);
    }
    assert(5 - kept(m) <= k);
    lemma_smaller_rank_precedes(w, r[k] as int, j, m);
}

/// The filled slots hold distinct positions, their weights never rising
/// from the first slot to the last.
pub proof fn lemma_top_five_ordered(w: Seq<u32>, r: Seq<isize>, p: int, q: int)
    requires
        is_top_five(w, w.len() as int, r),
        5 - kept(w.len() as int) <= p < q < 5,
    ensures
        r[p] != r[q],
        w[r[q] as int] <= w[r[p] as int],
        w[r[q] as int] == w[r[p] as int] ==> r[q] > r[p],
{
    let m = w.len() as int;
    let a = r[p] as int;
    let b = r[q] as int;
    if a == b {
        assert(false);
    }
    if precedes(w, a, b) {
        lemma_precedes_lowers_rank(w, a, b, m);
    }
}

} // verus!
