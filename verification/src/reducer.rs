//! The parallel reducer: one reduction task per work item, each computing a
//! dot product of a query row against a raw or pooled key vector and owning
//! exactly one cell of the output matrix.
//!
//! Matrices are stored flat and row-major: row `r` of a matrix with
//! `col_num` columns occupies indices `r * col_num .. (r + 1) * col_num`.

use vstd::prelude::*;

use rayon::iter::IndexedParallelIterator;
use rayon::iter::IntoParallelRefIterator;
use rayon::iter::ParallelIterator;

use crate::level::lemma_causality;
use crate::level::lemma_pool_bounds;
use crate::level::mask_spec;
use crate::points::gen_point_list;
use crate::points::item_ok;
use crate::points::lemma_complete;
use crate::points::lemma_list_props;
use crate::points::lex_before;
use crate::points::point_list;

verus! {

/// Whether a mathematical integer fits in an `i32`.
pub open spec fn in_i32(x: int) -> bool {
    i32::MIN <= x <= i32::MAX
}

/// The pooled key-side value at feature `i` for key `k` and level code
/// `mask`: the key row's own entry for a full cell, the sum of 2 or 4
/// consecutive key rows' entries for a half- or quarter-pooled cell.
pub open spec fn pool_val(b: Seq<i32>, k: int, d: int, i: int, mask: u8) -> int {
    if mask == 2 {
        b[(k - 1) * d + i] as int + b[k * d + i] as int
    } else if mask == 4 {
        b[(k - 3) * d + i] as int + b[(k - 2) * d + i] as int + b[(k - 1) * d + i] as int + b[k * d
            + i] as int
    } else {
        b[k * d + i] as int
    }
}

/// Whether the pooled value at feature `i`, and every left-to-right partial
/// sum on the way to it, fits in an `i32`.
pub open spec fn pool_fits(b: Seq<i32>, k: int, d: int, i: int, mask: u8) -> bool {
    &&& mask == 2 ==> in_i32(pool_val(b, k, d, i, mask))
    &&& mask == 4 ==> {
        &&& in_i32(b[(k - 3) * d + i] as int + b[(k - 2) * d + i] as int)
        &&& in_i32(b[(k - 3) * d + i] as int + b[(k - 2) * d + i] as int + b[(k - 1) * d + i] as int)
        &&& in_i32(pool_val(b, k, d, i, mask))
    }
}

/// The partial dot product of query row `q` against the pooled key `k` over
/// the first `n` features.
pub open spec fn dot_part(a: Seq<i32>, b: Seq<i32>, k: int, q: int, d: int, mask: u8, n: int) -> int
    decreases n,
{
    if n <= 0 {
        0
    } else {
        dot_part(a, b, k, q, d, mask, n - 1) + a[q * d + (n - 1)] as int * pool_val(
            b,
            k,
            d,
            n - 1,
            mask,
        )
    }
}

/// The value of one work item's output cell: the full dot product of query
/// row `q` against the raw or pooled key `k`, over all `d` features.
pub open spec fn cell_value(a: Seq<i32>, b: Seq<i32>, k: int, q: int, d: int, mask: u8) -> int {
    dot_part(a, b, k, q, d, mask, d)
}

/// A work item's structural side: a recognized level code, key indices deep
/// enough for its pooling width, and both rows inside the two matrices.
pub open spec fn point_in_bounds(
    a: Seq<i32>,
    b: Seq<i32>,
    d: int,
    k: int,
    q: int,
    mask: u8,
) -> bool {
    &&& (mask == 1 || mask == 2 || mask == 4)
    &&& 0 <= k
    &&& 0 <= q
    &&& mask == 2 ==> k >= 1
    &&& mask == 4 ==> k >= 3
    &&& (q + 1) * d <= a.len()
    &&& (k + 1) * d <= b.len()
}

/// A work item's arithmetic side: every pooled value, every product, and
/// every partial sum of its dot product fits in an `i32`.
pub open spec fn point_fits(a: Seq<i32>, b: Seq<i32>, d: int, k: int, q: int, mask: u8) -> bool {
    &&& forall|i: int|
        0 <= i < d ==> #[trigger] pool_fits(b, k, d, i, mask) && in_i32(
            a[q * d + i] as int * pool_val(b, k, d, i, mask),
        )
    &&& forall|n: int| 0 <= n <= d ==> in_i32(#[trigger] dot_part(a, b, k, q, d, mask, n))
}

/// Both sides at once, for the item `p` as the generated lists carry it.
pub open spec fn point_ok(a: Seq<i32>, b: Seq<i32>, d: int, p: ((usize, usize), u8)) -> bool {
    &&& point_in_bounds(a, b, d, p.0.0 as int, p.0.1 as int, p.1)
    &&& point_fits(a, b, d, p.0.0 as int, p.0.1 as int, p.1)
}

/// The flat output index of the item `p` in a matrix with `row_num` columns
/// per row: its query picks the row, its key the column.
pub open spec fn cell_index(p: ((usize, usize), u8), row_num: int) -> int {
    (p.0.1 as int) * row_num + (p.0.0 as int)
}

/// The output value of the item `p`.
pub open spec fn point_cell_value(a: Seq<i32>, b: Seq<i32>, d: int, p: ((usize, usize), u8)) -> int {
    cell_value(a, b, p.0.0 as int, p.0.1 as int, d, p.1)
}

/// Computes the value of one work item's cell: the dot product of query row
/// `y` against key `x`, raw for code 1, pooled by 2 for code 2, pooled by 4
/// for code 4.
pub fn point_value(a: &Vec<i32>, b: &Vec<i32>, col_num: usize, x: usize, y: usize, mask: u8) -> (r:
    i32)
    requires
        point_in_bounds(a@, b@, col_num as int, x as int, y as int, mask),
        point_fits(a@, b@, col_num as int, x as int, y as int, mask),
    ensures
        r as int == cell_value(a@, b@, x as int, y as int, col_num as int, mask),
{
    let ghost d: int = col_num as int;
    proof {
        assert(a@.len() == a.len() && b@.len() == b.len());
        assert((y as int) * d <= (y as int + 1) * d && (y as int + 1) * d == (y as int) * d + d)
            by (nonlinear_arith)
            requires d >= 0;
        assert((x as int - 3) * d <= (x as int - 2) * d <= (x as int - 1) * d <= (x as int) * d <= (
        x as int + 1) * d && (x as int + 1) * d == (x as int) * d + d) by (nonlinear_arith)
            requires d >= 0;
    }
    let mut acc: i32 = 0;
    let mut i: usize = 0;
    while i < col_num
        invariant
            i <= col_num,
            d == col_num as int,
            a@.len() <= usize::MAX,
            b@.len() <= usize::MAX,
            point_in_bounds(a@, b@, col_num as int, x as int, y as int, mask),
            point_fits(a@, b@, col_num as int, x as int, y as int, mask),
            (y as int + 1) * d == (y as int) * d + d,
            (x as int - 3) * d <= (x as int - 2) * d <= (x as int - 1) * d <= (x as int) * d,
            (x as int + 1) * d == (x as int) * d + d,
            acc as int == dot_part(a@, b@, x as int, y as int, col_num as int, mask, i as int),
        decreases col_num - i,
    {
        proof {
            assert(pool_fits(b@, x as int, col_num as int, i as int, mask));
            assert(in_i32(
                a@[(y as int) * d + i as int] as int * pool_val(
                    b@,
                    x as int,
                    col_num as int,
                    i as int,
                    mask,
                ),
            ));
            assert(in_i32(dot_part(a@, b@, x as int, y as int, col_num as int, mask, i as int + 1)));
        }
        let a_v: i32 = a[y * col_num + i];
        let b_v: i32 = if mask == 1 {
            b[x * col_num + i]
        } else if mask == 2 {
            b[(x - 1) * col_num + i] + b[x * col_num + i]
        } else {
            b[(x - 3) * col_num + i] + b[(x - 2) * col_num + i] + b[(x - 1) * col_num + i] + b[x
                * col_num + i]
        };
        proof {
            assert(b_v as int == pool_val(b@, x as int, col_num as int, i as int, mask));
        }
        acc = acc + a_v * b_v;
        i = i + 1;
    }
    acc
}

/// Executes the work item at `tid` of `points`: computes its dot product and
/// adds it into its uniquely owned cell of the flat `row_num`-column output
/// matrix; every other cell is left untouched.
pub fn mtla_matmul(
    a: &Vec<i32>,
    b: &Vec<i32>,
    out: &mut Vec<i32>,
    tid: usize,
    col_num: usize,
    row_num: usize,
    points: &Vec<((usize, usize), u8)>,
)
    requires
        tid < points@.len(),
        point_ok(a@, b@, col_num as int, points@[tid as int]),
        cell_index(points@[tid as int], row_num as int) < old(out)@.len(),
        in_i32(
            old(out)@[cell_index(points@[tid as int], row_num as int)] as int + point_cell_value(
                a@,
                b@,
                col_num as int,
                points@[tid as int],
            ),
        ),
    ensures
        final (out)@.len() == old(out)@.len(),
        forall|j: int|
            0 <= j < old(out)@.len() && j != cell_index(points@[tid as int], row_num as int)
                ==> final (out)@[j] == old(out)@[j],
        final (out)@[cell_index(points@[tid as int], row_num as int)] as int == old(out)@[cell_index(
            points@[tid as int],
            row_num as int,
        )] as int + point_cell_value(a@, b@, col_num as int, points@[tid as int]),
{
    let p: ((usize, usize), u8) = points[tid];
    let x: usize = p.0.0;
    let y: usize = p.0.1;
    let mask: u8 = p.1;
    let v: i32 = point_value(a, b, col_num, x, y, mask);
    proof {
        assert(out@.len() == out.len());
    }
    let idx: usize = y * row_num + x;
    let cur: i32 = out[idx];
    out.set(idx, cur + v);
}

/// Relies on rayon's indexed parallel iterators: `par_iter` over a `Vec`,
/// `map`, and `collect_into_vec` run one task per element on a shared worker
/// pool, block until all have finished, and fill the target vector with the
/// closure's results in the source's order. The closure only calls the
/// verified `point_value` on its element's fields.
#[verifier::external_body]
fn par_point_values(
    a: &Vec<i32>,
    b: &Vec<i32>,
    col_num: usize,
    points: &Vec<((usize, usize), u8)>,
) -> (r: Vec<i32>)
    requires
        forall|i: int| 0 <= i < points@.len() ==> point_ok(a@, b@, col_num as int, #[trigger] points@[i]),
    ensures
        r@.len() == points@.len(),
        forall|i: int|
            0 <= i < points@.len() ==> #[trigger] r@[i] as int == point_cell_value(
                a@,
                b@,
                col_num as int,
                points@[i],
            ),
{
    let mut vals: Vec<i32> = Vec::new();
    points.par_iter().map(|p| point_value(a, b, col_num, p.0.0, p.0.1, p.1)).collect_into_vec(
        &mut vals,
    );
    vals
}

/// Two distinct cells of the grid never share a flat row-major index.
proof fn lemma_flat_index_injective(k1: int, q1: int, k2: int, q2: int, t: int)
    requires
        0 <= k1 < t,
        0 <= k2 < t,
        0 <= q1,
        0 <= q2,
        q1 * t + k1 == q2 * t + k2,
    ensures
        k1 == k2 && q1 == q2,
{
    assert(k1 == k2 && q1 == q2) by (nonlinear_arith)
        requires
            0 <= k1 < t,
            0 <= k2 < t,
            0 <= q1,
            0 <= q2,
            q1 * t + k1 == q2 * t + k2,
    ;
}

/// Whether some item of `points` targets the cell of key `k` and query `q`.
pub open spec fn covers(points: Seq<((usize, usize), u8)>, k: int, q: int) -> bool {
    exists|i: int|
        0 <= i < points.len() && (#[trigger] points[i]).0.0 as int == k && points[i].0.1 as int == q
}

/// Executes every work item of `points` against the two `col_num`-column
/// input matrices: allocates a zero-filled flat `t` by `t` output matrix,
/// computes all the items' dot products in parallel, and writes each into
/// its uniquely owned cell; every cell no item targets stays zero.
pub fn reduce(
    a: &Vec<i32>,
    b: &Vec<i32>,
    t: usize,
    col_num: usize,
    points: &Vec<((usize, usize), u8)>,
) -> (r: Vec<i32>)
    requires
        (t as int) * (t as int) <= usize::MAX,
        forall|i: int| 0 <= i < points@.len() ==> point_ok(a@, b@, col_num as int, #[trigger] points@[i]),
        forall|i: int|
            0 <= i < points@.len() ==> (#[trigger] points@[i]).0.0 < t && points@[i].0.1 < t,
        forall|i: int, j: int|
            0 <= i < points@.len() && 0 <= j < points@.len() && i != j ==> (#[trigger] points@[i]).0
                != (#[trigger] points@[j]).0,
    ensures
        r@.len() == (t as int) * (t as int),
        forall|i: int|
            0 <= i < points@.len() ==> r@[cell_index(#[trigger] points@[i], t as int)] as int
                == point_cell_value(a@, b@, col_num as int, points@[i]),
        forall|k: int, q: int|
            0 <= k < t && 0 <= q < t && !(#[trigger] covers(points@, k, q)) ==> r@[q * (t as int)
                + k] == 0i32,
{
    let total: usize = t * t;
    let mut out: Vec<i32> = Vec::new();
    while out.len() < total
        invariant
            out@.len() <= total,
            forall|j: int| 0 <= j < out@.len() ==> out@[j] == 0i32,
        decreases total - out.len(),
    {
        out.push(0);
    }
    let vals: Vec<i32> = par_point_values(a, b, col_num, points);
    proof {
        assert(forall|i: int|
            0 <= i < points@.len() ==> 0 <= cell_index(#[trigger] points@[i], t as int) < (
            t as int) * (t as int)) by {
            assert forall|i: int| 0 <= i < points@.len() implies 0 <= cell_index(
                #[trigger] points@[i],
                t as int,
            ) < (t as int) * (t as int) by {
                let k: int = points@[i].0.0 as int;
                let q: int = points@[i].0.1 as int;
                assert(0 <= q * (t as int) + k < (t as int) * (t as int)) by (nonlinear_arith)
                    requires
                        0 <= k < t as int,
                        0 <= q < t as int,
                ;
            }
        }
    }
    proof {
        assert forall|k: int, q: int|
            0 <= k < t && 0 <= q < t && !(#[trigger] covers(points@.take(0int), k, q)) implies out@[
        q * (t as int) + k] == 0i32 by {
            assert(0 <= q * (t as int) + k < (t as int) * (t as int)) by (nonlinear_arith)
                requires
                    0 <= k < t as int,
                    0 <= q < t as int,
            ;
        }
    }
    let mut i: usize = 0;
    while i < points.len()
        invariant
            i <= points@.len(),
            out@.len() == (t as int) * (t as int),
            vals@.len() == points@.len(),
            forall|j: int|
                0 <= j < points@.len() ==> #[trigger] vals@[j] as int == point_cell_value(
                    a@,
                    b@,
                    col_num as int,
                    points@[j],
                ),
            forall|j: int|
                0 <= j < points@.len() ==> (#[trigger] points@[j]).0.0 < t && points@[j].0.1 < t,
            forall|j: int|
                0 <= j < points@.len() ==> 0 <= cell_index(#[trigger] points@[j], t as int) < (
                t as int) * (t as int),
            forall|j1: int, j2: int|
                0 <= j1 < points@.len() && 0 <= j2 < points@.len() && j1 != j2 ==> (
                #[trigger] points@[j1]).0 != (#[trigger] points@[j2]).0,
            forall|j: int|
                0 <= j < i ==> out@[cell_index(#[trigger] points@[j], t as int)] as int
                    == point_cell_value(a@, b@, col_num as int, points@[j]),
            forall|k: int, q: int|
                0 <= k < t && 0 <= q < t && !(#[trigger] covers(points@.take(i as int), k, q))
                    ==> out@[q * (t as int) + k] == 0i32,
        decreases points@.len() - i,
    {
        let p: ((usize, usize), u8) = points[i];
        proof {
            assert(out@.len() == out.len());
            assert(cell_index(points@[i as int], t as int) < out@.len());
        }
        let idx: usize = p.0.1 * t + p.0.0;
        let v: i32 = vals[i];
        out.set(idx, v);
        proof {
            assert forall|j: int|
                0 <= j < i + 1 implies out@[cell_index(#[trigger] points@[j], t as int)] as int
                == point_cell_value(a@, b@, col_num as int, points@[j]) by {
                if j < i {
                    if cell_index(points@[j], t as int) == idx as int {
                        lemma_flat_index_injective(
                            points@[j].0.0 as int,
                            points@[j].0.1 as int,
                            points@[i as int].0.0 as int,
                            points@[i as int].0.1 as int,
                            t as int,
                        );
                        assert(points@[j].0 == points@[i as int].0);
                        assert(false);
                    }
                }
            }
            assert forall|k: int, q: int|
                0 <= k < t && 0 <= q < t && !(#[trigger] covers(points@.take(i as int + 1), k, q))
                implies out@[q * (t as int) + k] == 0i32 by {
                assert(0 <= q * (t as int) + k < (t as int) * (t as int)) by (nonlinear_arith)
                    requires
                        0 <= k < t as int,
                        0 <= q < t as int,
                ;
                assert(!covers(points@.take(i as int), k, q)) by {
                    if covers(points@.take(i as int), k, q) {
                        let w = choose|w: int|
                            0 <= w < points@.take(i as int).len() && (#[trigger] points@.take(
                                i as int,
                            )[w]).0.0 as int == k && points@.take(i as int)[w].0.1 as int == q;
                        assert(points@.take(i as int + 1)[w] == points@.take(i as int)[w]);
                    }
                }
                if q * (t as int) + k == idx as int {
                    lemma_flat_index_injective(
                        k,
                        q,
                        points@[i as int].0.0 as int,
                        points@[i as int].0.1 as int,
                        t as int,
                    );
                    assert(points@.take(i as int + 1)[i as int] == points@[i as int]);
                    assert(covers(points@.take(i as int + 1), k, q));
                }
            }
        }
        i = i + 1;
    }
    proof {
        assert(points@.take(points@.len() as int) =~= points@);
    }
    out
}

/// Why a configuration was rejected before any work was scheduled.
#[derive(Clone, Copy, Debug, PartialEq, Eq, Structural)]
pub enum ConfigError {
    /// The sequence length, the feature dimension or the window is zero.
    NonPositiveParam,
    /// The two input matrices do not both have the stated flat shape.
    ShapeMismatch,
}

/// A well-formed configuration: positive sizes, and both flat input
/// matrices of length `t * d`.
pub open spec fn valid_config(a_len: int, b_len: int, t: int, d: int, window: int) -> bool {
    t >= 1 && d >= 1 && window >= 1 && a_len == t * d && b_len == t * d
}

/// Whether every work item the classifier implies for this grid has all its
/// partial dot-product sums inside `i32`.
pub open spec fn list_fits(a: Seq<i32>, b: Seq<i32>, t: int, d: int, window: int) -> bool {
    forall|i: int|
        0 <= i < point_list(t, window).len() ==> point_fits(
            a,
            b,
            d,
            (#[trigger] point_list(t, window)[i]).0.0 as int,
            point_list(t, window)[i].0.1 as int,
            point_list(t, window)[i].1,
        )
}

/// What one output cell holds after the full pipeline: the cell's dot
/// product when the classifier does not skip it, zero otherwise.
pub open spec fn out_cell(a: Seq<i32>, b: Seq<i32>, d: int, window: int, k: int, q: int) -> int {
    if mask_spec(k, q, window) != 0 {
        cell_value(a, b, k, q, d, mask_spec(k, q, window))
    } else {
        0
    }
}

/// Causality at the output: a cell whose key lies past its query holds zero.
pub proof fn lemma_out_cell_causal(a: Seq<i32>, b: Seq<i32>, d: int, window: int, k: int, q: int)
    requires
        k > q,
    ensures
        out_cell(a, b, d, window, k, q) == 0,
{
    lemma_causality(k, q, window);
}

/// The full pipeline: validates the configuration, enumerates the work
/// items for a `t` by `t` grid, and executes them in parallel against the
/// two flat `t` by `col_num` input matrices, returning the flat `t` by `t`
/// output matrix in which every cell holds exactly what the classifier
/// prescribes for it.
pub fn run(a: &Vec<i32>, b: &Vec<i32>, t: usize, col_num: usize, window: usize) -> (r: Result<
    Vec<i32>,
    ConfigError,
>)
    requires
        valid_config(
            a@.len() as int,
            b@.len() as int,
            t as int,
            col_num as int,
            window as int,
        ) ==> {
            &&& (t as int) * (t as int) <= usize::MAX
            &&& window < usize::MAX
            &&& list_fits(a@, b@, t as int, col_num as int, window as int)
        },
    ensures
        r is Ok <==> valid_config(
            a@.len() as int,
            b@.len() as int,
            t as int,
            col_num as int,
            window as int,
        ),
        (t == 0 || col_num == 0 || window == 0) ==> r == Err::<Vec<i32>, ConfigError>(
            ConfigError::NonPositiveParam,
        ),
        (t >= 1 && col_num >= 1 && window >= 1 && !valid_config(
            a@.len() as int,
            b@.len() as int,
            t as int,
            col_num as int,
            window as int,
        )) ==> r == Err::<Vec<i32>, ConfigError>(ConfigError::ShapeMismatch),
        match r {
            Ok(out) => {
                &&& out@.len() == (t as int) * (t as int)
                &&& forall|k: int, q: int|
                    0 <= k < t && 0 <= q < t ==> out@[q * (t as int) + k] as int == out_cell(
                        a@,
                        b@,
                        col_num as int,
                        window as int,
                        k,
                        q,
                    )
            },
            Err(_) => true,
        },
{
    if t == 0 || col_num == 0 || window == 0 {
        return Err(ConfigError::NonPositiveParam);
    }
    proof {
        assert(a@.len() == a.len() && b@.len() == b.len());
    }
    let shape_ok: bool = match t.checked_mul(col_num) {
        Some(n) => a.len() == n && b.len() == n,
        None => false,
    };
    if !shape_ok {
        return Err(ConfigError::ShapeMismatch);
    }
    let points: Vec<((usize, usize), u8)> = gen_point_list(t, window);
    proof {
        lemma_list_props(t as int, window as int);
        assert forall|i: int| 0 <= i < points@.len() implies point_ok(
            a@,
            b@,
            col_num as int,
            #[trigger] points@[i],
        ) by {
            assert(points@[i] == point_list(t as int, window as int)[i]);
            assert(item_ok(t as int, window as int, points@[i]));
            let k: int = points@[i].0.0 as int;
            let q: int = points@[i].0.1 as int;
            lemma_pool_bounds(k, q, window as int);
            assert((q + 1) * (col_num as int) <= (t as int) * (col_num as int)
                && (k + 1) * (col_num as int) <= (t as int) * (col_num as int))
                by (nonlinear_arith)
                requires
                    q + 1 <= t as int,
                    k + 1 <= t as int,
                    col_num as int >= 0,
            ;
        }
        assert forall|i: int, j: int|
            0 <= i < points@.len() && 0 <= j < points@.len() && i != j implies (
        #[trigger] points@[i]).0 != (#[trigger] points@[j]).0 by {
            if i < j {
                assert(lex_before(points@[i], points@[j]));
            } else {
                assert(lex_before(points@[j], points@[i]));
            }
        }
    }
    let out: Vec<i32> = reduce(a, b, t, col_num, &points);
    proof {
        assert forall|k: int, q: int| 0 <= k < t && 0 <= q < t implies out@[q * (t as int)
            + k] as int == out_cell(a@, b@, col_num as int, window as int, k, q) by {
            if mask_spec(k, q, window as int) != 0 {
                lemma_complete(t as int, window as int, k, q);
                let i = choose|i: int|
                    0 <= i < point_list(t as int, window as int).len() && #[trigger] point_list(
                        t as int,
                        window as int,
                    )[i] == ((k as usize, q as usize), mask_spec(k, q, window as int));
                assert(points@[i] == ((k as usize, q as usize), mask_spec(k, q, window as int)));
                assert(out@[cell_index(points@[i], t as int)] as int == point_cell_value(
                    a@,
                    b@,
                    col_num as int,
                    points@[i],
                ));
            } else {
                assert(!covers(points@, k, q)) by {
                    if covers(points@, k, q) {
                        let i = choose|i: int|
                            0 <= i < points@.len() && (#[trigger] points@[i]).0.0 as int == k
                                && points@[i].0.1 as int == q;
                        assert(item_ok(t as int, window as int, points@[i]));
                    }
                }
            }
        }
    }
    Ok(out)
}

} // verus!
