//! The work-item generator: enumerates, in query-major, key-minor order,
//! every (key, query) cell that the classifier does not skip, each tagged
//! with its level code.

use vstd::prelude::*;

use crate::level::find_mask;
use crate::level::lemma_pool_bounds;
use crate::level::mask_spec;

verus! {

/// The work items of one query row, for keys below `k_end`, in ascending
/// key order: every key whose classification is not skip, with its code.
pub open spec fn points_row(q: int, window: int, k_end: int) -> Seq<((usize, usize), u8)>
    decreases k_end,
{
    if k_end <= 0 {
        Seq::empty()
    } else {
        let rest = points_row(q, window, k_end - 1);
        let m = mask_spec(k_end - 1, q, window);
        if m != 0 {
            rest.push((((k_end - 1) as usize, q as usize), m))
        } else {
            rest
        }
    }
}

/// The work items of all query rows below `q_end`, each row scanning keys
/// below `t`, concatenated in ascending query order.
pub open spec fn points_upto(t: int, window: int, q_end: int) -> Seq<((usize, usize), u8)>
    decreases q_end,
{
    if q_end <= 0 {
        Seq::empty()
    } else {
        points_upto(t, window, q_end - 1) + points_row(q_end - 1, window, t)
    }
}

/// The full work-item list for a sequence of length `t`: one item per
/// non-skipped cell, in query-major, key-minor order.
pub open spec fn point_list(t: int, window: int) -> Seq<((usize, usize), u8)> {
    points_upto(t, window, t)
}

/// A work item of one fixed query row: its query is `q`, its key lies below
/// `k_bound`, and its code is the classifier's, which is not skip.
pub open spec fn row_item_ok(q: int, k_bound: int, window: int, p: ((usize, usize), u8)) -> bool {
    p.0.1 as int == q && (p.0.0 as int) < k_bound && p.1 == mask_spec(
        p.0.0 as int,
        q,
        window,
    ) && p.1 != 0
}

/// A work item of the full list: both indices lie below `t`, and its code is
/// the classifier's for its cell, which is not skip.
pub open spec fn item_ok(t: int, window: int, p: ((usize, usize), u8)) -> bool {
    (p.0.0 as int) < t && (p.0.1 as int) < t && p.1 == mask_spec(
        p.0.0 as int,
        p.0.1 as int,
        window,
    ) && p.1 != 0
}

/// Query-major, key-minor order on work items.
pub open spec fn lex_before(p1: ((usize, usize), u8), p2: ((usize, usize), u8)) -> bool {
    p1.0.1 < p2.0.1 || (p1.0.1 == p2.0.1 && p1.0.0 < p2.0.0)
}

/// Every item of a row is well formed for that row, and the row is strictly
/// ascending in the key.
pub proof fn lemma_row_props(q: int, window: int, k_end: int)
    requires
        0 <= q <= usize::MAX,
        k_end <= usize::MAX,
    ensures
        forall|i: int|
            0 <= i < points_row(q, window, k_end).len() ==> row_item_ok(
                q,
                k_end,
                window,
                #[trigger] points_row(q, window, k_end)[i],
            ),
        forall|i: int, j: int|
            0 <= i < j < points_row(q, window, k_end).len() ==> lex_before(
                #[trigger] points_row(q, window, k_end)[i],
                #[trigger] points_row(q, window, k_end)[j],
            ),
    decreases k_end,
{
    if k_end > 0 {
        lemma_row_props(q, window, k_end - 1);
        assert(forall|i: int|
            0 <= i < points_row(q, window, k_end - 1).len() ==> points_row(q, window, k_end)[i]
                == points_row(q, window, k_end - 1)[i]);
    }
}

/// Every item of the list up to `q_end` is well formed for the grid, its
/// query lies below `q_end`, and the list is strictly ascending in
/// query-major, key-minor order.
pub proof fn lemma_upto_props(t: int, window: int, q_end: int)
    requires
        0 <= t <= usize::MAX,
        q_end <= t,
    ensures
        forall|i: int|
            0 <= i < points_upto(t, window, q_end).len() ==> item_ok(
                t,
                window,
                #[trigger] points_upto(t, window, q_end)[i],
            ) && (points_upto(t, window, q_end)[i].0.1 as int) < q_end,
        forall|i: int, j: int|
            0 <= i < j < points_upto(t, window, q_end).len() ==> lex_before(
                #[trigger] points_upto(t, window, q_end)[i],
                #[trigger] points_upto(t, window, q_end)[j],
            ),
    decreases q_end,
{
    if q_end > 0 {
        lemma_upto_props(t, window, q_end - 1);
        lemma_row_props(q_end - 1, window, t);
        let prefix = points_upto(t, window, q_end - 1);
        let row = points_row(q_end - 1, window, t);
        assert(forall|i: int|
            0 <= i < prefix.len() ==> points_upto(t, window, q_end)[i] == prefix[i]);
        assert(forall|i: int|
            0 <= i < row.len() ==> points_upto(t, window, q_end)[prefix.len() + i] == row[i]);
        assert forall|i: int|
            0 <= i < points_upto(t, window, q_end).len() implies item_ok(
            t,
            window,
            #[trigger] points_upto(t, window, q_end)[i],
        ) && (points_upto(t, window, q_end)[i].0.1 as int) < q_end by {
            if i >= prefix.len() {
                assert(row_item_ok(q_end - 1, t, window, row[i - prefix.len()]));
            }
        }
    }
}

/// Every item of the full work-item list lies inside the grid and carries
/// the classifier's non-skip code for its cell, and the list is strictly
/// ascending in query-major, key-minor order.
pub proof fn lemma_list_props(t: int, window: int)
    requires
        0 <= t <= usize::MAX,
    ensures
        forall|i: int|
            0 <= i < point_list(t, window).len() ==> item_ok(
                t,
                window,
                #[trigger] point_list(t, window)[i],
            ),
        forall|i: int, j: int|
            0 <= i < j < point_list(t, window).len() ==> lex_before(
                #[trigger] point_list(t, window)[i],
                #[trigger] point_list(t, window)[j],
            ),
{
    lemma_upto_props(t, window, t);
}

/// Disjointness: two distinct work items of one generated list never target
/// the same output cell.
pub proof fn lemma_disjoint(t: int, window: int, i: int, j: int)
    requires
        0 <= t <= usize::MAX,
        0 <= i < point_list(t, window).len(),
        0 <= j < point_list(t, window).len(),
        i != j,
    ensures
        point_list(t, window)[i].0 != point_list(t, window)[j].0,
{
    lemma_list_props(t, window);
}

/// A row is complete: every key below `k_end` whose classification is not
/// skip appears in the row, with its code.
proof fn lemma_row_complete(q: int, window: int, k_end: int, k: int)
    requires
        0 <= q <= usize::MAX,
        0 <= k < k_end <= usize::MAX,
        mask_spec(k, q, window) != 0,
    ensures
        exists|i: int|
            0 <= i < points_row(q, window, k_end).len() && #[trigger] points_row(q, window, k_end)[i]
                == ((k as usize, q as usize), mask_spec(k, q, window)),
    decreases k_end,
{
    if k == k_end - 1 {
        let s = points_row(q, window, k_end);
        assert(s[s.len() - 1] == ((k as usize, q as usize), mask_spec(k, q, window)));
    } else {
        lemma_row_complete(q, window, k_end - 1, k);
        let i = choose|i: int|
            0 <= i < points_row(q, window, k_end - 1).len() && #[trigger] points_row(
                q,
                window,
                k_end - 1,
            )[i] == ((k as usize, q as usize), mask_spec(k, q, window));
        assert(points_row(q, window, k_end)[i] == points_row(q, window, k_end - 1)[i]);
    }
}

/// The list up to `q_end` is complete for every row below `q_end`.
proof fn lemma_upto_complete(t: int, window: int, q_end: int, k: int, q: int)
    requires
        0 <= t <= usize::MAX,
        q_end <= t,
        0 <= k < t,
        0 <= q < q_end,
        mask_spec(k, q, window) != 0,
    ensures
        exists|i: int|
            0 <= i < points_upto(t, window, q_end).len() && #[trigger] points_upto(
                t,
                window,
                q_end,
            )[i] == ((k as usize, q as usize), mask_spec(k, q, window)),
    decreases q_end,
{
    let prefix = points_upto(t, window, q_end - 1);
    let row = points_row(q_end - 1, window, t);
    if q == q_end - 1 {
        lemma_row_complete(q, window, t, k);
        let i = choose|i: int|
            0 <= i < row.len() && #[trigger] row[i] == (
                (k as usize, q as usize),
                mask_spec(k, q, window),
            );
        assert(points_upto(t, window, q_end)[prefix.len() + i] == row[i]);
    } else {
        lemma_upto_complete(t, window, q_end - 1, k, q);
        let i = choose|i: int|
            0 <= i < prefix.len() && #[trigger] prefix[i] == (
                (k as usize, q as usize),
                mask_spec(k, q, window),
            );
        assert(points_upto(t, window, q_end)[i] == prefix[i]);
    }
}

/// Completeness: every cell of the grid whose classification is not skip is
/// covered by exactly the item of the list that carries its code.
pub proof fn lemma_complete(t: int, window: int, k: int, q: int)
    requires
        0 <= t <= usize::MAX,
        0 <= k < t,
        0 <= q < t,
        mask_spec(k, q, window) != 0,
    ensures
        exists|i: int|
            0 <= i < point_list(t, window).len() && #[trigger] point_list(t, window)[i] == (
                (k as usize, q as usize),
                mask_spec(k, q, window),
            ),
{
    lemma_upto_complete(t, window, t, k, q);
    let i = choose|i: int|
        0 <= i < points_upto(t, window, t).len() && #[trigger] points_upto(t, window, t)[i] == (
            (k as usize, q as usize),
            mask_spec(k, q, window),
        );
    assert(point_list(t, window)[i] == ((k as usize, q as usize), mask_spec(k, q, window)));
}

/// Precondition safety over a generated list: every half-pooled item's key
/// is at least 1, and every quarter-pooled item's key is at least 3, so
/// every pooled aggregate lies wholly inside the key sequence.
pub proof fn lemma_list_pool_bounds(t: int, window: int, i: int)
    requires
        0 <= t <= usize::MAX,
        0 <= i < point_list(t, window).len(),
    ensures
        point_list(t, window)[i].1 == 2 ==> point_list(t, window)[i].0.0 >= 1,
        point_list(t, window)[i].1 == 4 ==> point_list(t, window)[i].0.0 >= 3,
{
    lemma_list_props(t, window);
    let p = point_list(t, window)[i];
    lemma_pool_bounds(p.0.0 as int, p.0.1 as int, window);
}

/// Enumerates the work items for a `mat_rows` by `mat_rows` grid: one
/// `((key, query), code)` triple per cell that the classifier does not skip,
/// in query-major, key-minor order.
pub fn gen_point_list(mat_rows: usize, window: usize) -> (r: Vec<((usize, usize), u8)>)
    requires
        window < usize::MAX,
    ensures
        r@ == point_list(mat_rows as int, window as int),
{
    let mut threads: Vec<((usize, usize), u8)> = Vec::new();
    let mut y: usize = 0;
    while y < mat_rows
        invariant
            y <= mat_rows,
            window < usize::MAX,
            threads@ == points_upto(mat_rows as int, window as int, y as int),
        decreases mat_rows - y,
    {
        let mut x: usize = 0;
        while x < mat_rows
            invariant
                x <= mat_rows,
                y < mat_rows,
                window < usize::MAX,
                threads@ == points_upto(mat_rows as int, window as int, y as int) + points_row(
                    y as int,
                    window as int,
                    x as int,
                ),
            decreases mat_rows - x,
        {
            let mask: u8 = find_mask(x, y, window);
            if mask != 0 {
                threads.push(((x, y), mask));
            }
            proof {
                assert(threads@ =~= points_upto(mat_rows as int, window as int, y as int)
                    + points_row(y as int, window as int, x as int + 1));
            }
            x = x + 1;
        }
        proof {
            assert(threads@ =~= points_upto(mat_rows as int, window as int, y as int + 1));
        }
        y = y + 1;
    }
    proof {
        assert(threads@ =~= points_upto(mat_rows as int, window as int, mat_rows as int));
    }
    threads
}

} // verus!
