//! Filling distance and time matrices from a per-pair travel estimator.
//!
//! The estimator is handed in by the caller; these functions decide which
//! pairs are estimated, in which order, where each result is stored, and how
//! errors are reported.
use vstd::prelude::*;

verus! {

/// The error returned when a latitude list and a longitude list differ in length.
pub const LENGTH_MISMATCH: &'static str = "lats and lons must have the same length";

/// The estimator returns `Ok` on every input it accepts.
pub open spec fn never_fails<C, T, E: Fn(C, C, C, C) -> Result<(T, T), String>>(estimate: E) -> bool {
    forall|args: (C, C, C, C), r: Result<(T, T), String>|
        #[trigger] call_ensures(estimate, args, r) ==> r is Ok
}

/// Position of entry `(row, col)` in a row-major matrix with `cols` columns.
pub open spec fn cell_pos(row: int, col: int, cols: int) -> int {
    row * cols + col
}

proof fn lemma_cell_pos_bounds(row: int, col: int, rows: int, cols: int)
    requires
        0 <= row < rows,
        0 <= col < cols,
    ensures
        0 <= cell_pos(row, col, cols),
        cell_pos(row, col, cols) < rows * cols,
        cell_pos(row, col, cols) + 1 <= (row + 1) * cols,
        row * cols <= cell_pos(row, col, cols),
{
    assert(0 <= row * cols) by (nonlinear_arith)
        requires
            0 <= row,
            0 <= col < cols,
    ;
    assert(row * cols + col + 1 <= (row + 1) * cols) by (nonlinear_arith)
        requires
            0 <= col < cols,
    ;
    assert((row + 1) * cols <= rows * cols) by (nonlinear_arith)
        requires
            row + 1 <= rows,
            0 <= cols,
    ;
}

proof fn lemma_cell_pos_injective(a: int, b: int, c: int, d: int, cols: int)
    requires
        0 <= a,
        0 <= c,
        0 <= b < cols,
        0 <= d < cols,
        cell_pos(a, b, cols) == cell_pos(c, d, cols),
    ensures
        a == c,
        b == d,
{
    if a < c {
        assert(a * cols + b < c * cols + d) by (nonlinear_arith)
            requires
                a < c,
                0 <= b < cols,
                0 <= d,
        ;
    } else if c < a {
        assert(c * cols + d < a * cols + b) by (nonlinear_arith)
            requires
                c < a,
                0 <= d < cols,
                0 <= b,
        ;
    }
}

/// All estimator results of an origins-by-destinations matrix, row-major.
pub open spec fn is_od_matrix<C, T, E: Fn(C, C, C, C) -> Result<(T, T), String>>(
    estimate: E,
    origin_lats: Seq<C>,
    origin_lons: Seq<C>,
    dest_lats: Seq<C>,
    dest_lons: Seq<C>,
    dist: Seq<T>,
    time: Seq<T>,
) -> bool {
    let rows = origin_lats.len() as int;
    let cols = dest_lats.len() as int;
    &&& dist.len() == rows * cols
    &&& time.len() == rows * cols
    &&& forall|i: int, j: int|
        0 <= i < rows && 0 <= j < cols ==> call_ensures(
            estimate,
            (origin_lats[i], origin_lons[i], dest_lats[j], dest_lons[j]),
            Ok::<(T, T), String>((#[trigger] dist[cell_pos(i, j, cols)], time[cell_pos(i, j, cols)])),
        )
}

/// The estimator returned some `Ok` result on `args`.
pub open spec fn succeeded<C, T, E: Fn(C, C, C, C) -> Result<(T, T), String>>(
    estimate: E,
    args: (C, C, C, C),
) -> bool {
    exists|v: (T, T)| #[trigger] call_ensures(estimate, args, Ok::<(T, T), String>(v))
}

/// `e` is the error of the first failing origin/destination pair in
/// row-major order: the estimator returned `Err(e)` on some pair `(i, j)`,
/// and returned `Ok` on every pair before it.
pub open spec fn od_first_failure<C, T, E: Fn(C, C, C, C) -> Result<(T, T), String>>(
    estimate: E,
    origin_lats: Seq<C>,
    origin_lons: Seq<C>,
    dest_lats: Seq<C>,
    dest_lons: Seq<C>,
    e: String,
) -> bool {
    exists|i: int, j: int|
        #![trigger origin_lats[i], dest_lats[j]]
        {
            &&& 0 <= i < origin_lats.len()
            &&& 0 <= j < dest_lats.len()
            &&& call_ensures(
                estimate,
                (origin_lats[i], origin_lons[i], dest_lats[j], dest_lons[j]),
                Err::<(T, T), String>(e),
            )
            &&& forall|a: int, b: int|
                0 <= a < origin_lats.len() && 0 <= b < dest_lats.len() && (a < i || (a == i && b < j))
                    ==> #[trigger] succeeded(estimate, (origin_lats[a], origin_lons[a], dest_lats[b], dest_lons[b]))
        }
}

/// A complete origins-by-destinations matrix, entry by entry: the estimate
/// from origin `i` to destination `j` is stored at `i * dest_lats.len() + j`.
pub proof fn lemma_od_matrix_entries<C, T, E: Fn(C, C, C, C) -> Result<(T, T), String>>(
    estimate: E,
    origin_lats: Seq<C>,
    origin_lons: Seq<C>,
    dest_lats: Seq<C>,
    dest_lons: Seq<C>,
    dist: Seq<T>,
    time: Seq<T>,
)
    requires
        is_od_matrix(estimate, origin_lats, origin_lons, dest_lats, dest_lons, dist, time),
    ensures
        dist.len() == origin_lats.len() * dest_lats.len(),
        time.len() == origin_lats.len() * dest_lats.len(),
        forall|i: int, j: int|
            0 <= i < origin_lats.len() && 0 <= j < dest_lats.len() ==> call_ensures(
                estimate,
                (origin_lats[i], origin_lons[i], dest_lats[j], dest_lons[j]),
                Ok::<(T, T), String>((#[trigger] dist[i * dest_lats.len() + j], time[i * dest_lats.len() + j])),
            ),
{
    assert forall|i: int, j: int| 0 <= i < origin_lats.len() && 0 <= j < dest_lats.len() implies call_ensures(
        estimate,
        (origin_lats[i], origin_lons[i], dest_lats[j], dest_lons[j]),
        Ok::<(T, T), String>((#[trigger] dist[i * dest_lats.len() + j], time[i * dest_lats.len() + j])),
    ) by {
        let _ = dist[cell_pos(i, j, dest_lats.len() as int)];
    }
}

/// Compute non-square distance and time matrices between origins and
/// destinations: entry `i * dest_lats.len() + j` holds the estimate from
/// origin `i` to destination `j`.
pub fn compute_non_square_matrix<C: Copy, T: Copy, E: Fn(C, C, C, C) -> Result<(T, T), String>>(
    origin_lats: &[C],
    origin_lons: &[C],
    dest_lats: &[C],
    dest_lons: &[C],
    estimate: E,
) -> (res: Result<(Vec<T>, Vec<T>), String>)
    requires
        origin_lats.len() == origin_lons.len() && dest_lats.len() == dest_lons.len() ==> origin_lats.len()
            * dest_lats.len() <= usize::MAX,
        forall|i: int, j: int|
            0 <= i < origin_lats.len() && 0 <= j < dest_lats.len() && origin_lats.len()
                == origin_lons.len() && dest_lats.len() == dest_lons.len() ==> call_requires(
                estimate,
                (origin_lats[i], origin_lons[i], dest_lats[j], dest_lons[j]),
            ),
    ensures
        origin_lats.len() != origin_lons.len() || dest_lats.len() != dest_lons.len() ==> (
        res matches Err(e) && e@ == LENGTH_MISMATCH@),
        origin_lats.len() == origin_lons.len() && dest_lats.len() == dest_lons.len() ==> match res {
            Ok((dist, time)) => is_od_matrix(
                estimate,
                origin_lats@,
                origin_lons@,
                dest_lats@,
                dest_lons@,
                dist@,
                time@,
            ),
            Err(e) => od_first_failure(
                estimate,
                origin_lats@,
                origin_lons@,
                dest_lats@,
                dest_lons@,
                e,
            ),
        },
        origin_lats.len() == origin_lons.len() && dest_lats.len() == dest_lons.len() && never_fails(
            estimate,
        ) ==> res is Ok,
        origin_lats.len() == origin_lons.len() && dest_lats.len() == dest_lons.len() ==> (res matches Ok(
            (dist, time),
        ) ==> {
            &&& dist.len() == origin_lats.len() * dest_lats.len()
            &&& time.len() == origin_lats.len() * dest_lats.len()
            &&& forall|i: int, j: int|
                0 <= i < origin_lats.len() && 0 <= j < dest_lats.len() ==> call_ensures(
                    estimate,
                    (origin_lats[i], origin_lons[i], dest_lats[j], dest_lons[j]),
                    Ok::<(T, T), String>(
                        (#[trigger] dist@[i * dest_lats.len() + j], time@[i * dest_lats.len() + j]),
                    ),
                )
        }),
        origin_lats.len() == origin_lons.len() && dest_lats.len() == dest_lons.len() && (forall|
            args: (C, C, C, C),
            r: Result<(T, T), String>,
        | #[trigger] call_ensures(estimate, args, r) ==> r is Ok) ==> res is Ok,
{
    let n_origins = origin_lats.len();
    let n_dests = dest_lats.len();
    if n_origins != origin_lons.len() || n_dests != dest_lons.len() {
        return Err(String::from_str(LENGTH_MISMATCH));
    }
    let mut dist: Vec<T> = Vec::new();
    let mut time: Vec<T> = Vec::new();
    let mut i: usize = 0;
    while i < n_origins
        invariant
            n_origins == origin_lats.len() == origin_lons.len(),
            n_dests == dest_lats.len() == dest_lons.len(),
            n_origins * n_dests <= usize::MAX,
            0 <= i <= n_origins,
            dist.len() == i * n_dests,
            time.len() == i * n_dests,
            forall|a: int, b: int|
                0 <= a < n_origins && 0 <= b < n_dests ==> call_requires(
                    estimate,
                    (origin_lats[a], origin_lons[a], dest_lats[b], dest_lons[b]),
                ),
            forall|a: int, b: int|
                0 <= a < i && 0 <= b < n_dests ==> call_ensures(
                    estimate,
                    (origin_lats[a], origin_lons[a], dest_lats[b], dest_lons[b]),
                    Ok::<(T, T), String>((#[trigger] dist@[cell_pos(a, b, n_dests as int)], time@[cell_pos(a, b, n_dests as int)])),
                ),
        decreases n_origins - i,
    {
        let mut j: usize = 0;
        while j < n_dests
            invariant
                n_origins == origin_lats.len() == origin_lons.len(),
                n_dests == dest_lats.len() == dest_lons.len(),
                n_origins * n_dests <= usize::MAX,
                0 <= i < n_origins,
                0 <= j <= n_dests,
                dist.len() == i * n_dests + j,
                time.len() == i * n_dests + j,
                forall|a: int, b: int|
                    0 <= a < n_origins && 0 <= b < n_dests ==> call_requires(
                        estimate,
                        (origin_lats[a], origin_lons[a], dest_lats[b], dest_lons[b]),
                    ),
                forall|a: int, b: int|
                    ((0 <= a < i && 0 <= b < n_dests) || (a == i && 0 <= b < j)) ==> call_ensures(
                        estimate,
                        (origin_lats[a], origin_lons[a], dest_lats[b], dest_lons[b]),
                        Ok::<(T, T), String>((#[trigger] dist@[cell_pos(a, b, n_dests as int)], time@[cell_pos(a, b, n_dests as int)])),
                    ),
            decreases n_dests - j,
        {
            proof {
                lemma_cell_pos_bounds(i as int, j as int, n_origins as int, n_dests as int);
            }
            let outcome = estimate(origin_lats[i], origin_lons[i], dest_lats[j], dest_lons[j]);
            let (d, t) = match outcome {
                Ok(pair) => pair,
                Err(e) => {
                    proof {
                        assert(call_ensures(
                            estimate,
                            (origin_lats@[i as int], origin_lons@[i as int], dest_lats@[j as int], dest_lons@[j as int]),
                            Err::<(T, T), String>(e),
                        ));
                        assert forall|a: int, b: int|
                            0 <= a < n_origins && 0 <= b < n_dests && (a < i || (a == i && b < j)) implies
                            #[trigger] succeeded(estimate, (origin_lats@[a], origin_lons@[a], dest_lats@[b], dest_lons@[b])) by {
                            let _ = dist@[cell_pos(a, b, n_dests as int)];
                        }
                        assert(od_first_failure(estimate, origin_lats@, origin_lons@, dest_lats@, dest_lons@, e));
                    }
                    return Err(e);
                },
            };
            let ghost old_dist = dist@;
            let ghost old_time = time@;
            dist.push(d);
            time.push(t);
            proof {
                assert forall|a: int, b: int|
                    ((0 <= a < i && 0 <= b < n_dests) || (a == i && 0 <= b < j + 1)) implies call_ensures(
                        estimate,
                        (origin_lats[a], origin_lons[a], dest_lats[b], dest_lons[b]),
                        Ok::<(T, T), String>((#[trigger] dist@[cell_pos(a, b, n_dests as int)], time@[cell_pos(a, b, n_dests as int)])),
                    ) by {
                    lemma_cell_pos_bounds(a, b, n_origins as int, n_dests as int);
                    if a < i {
                        lemma_cell_pos_bounds(a, b, i as int, n_dests as int);
                    }
                    if a == i && b < j {
                        assert(old_dist[cell_pos(a, b, n_dests as int)] == dist@[cell_pos(a, b, n_dests as int)]);
                    }
                }
            }
            j = j + 1;
        }
        i = i + 1;
        proof {
            assert(dist.len() == i * n_dests) by (nonlinear_arith)
                requires dist.len() == (i - 1) * n_dests + n_dests;
        }
    }
    proof {
        assert(is_od_matrix(estimate, origin_lats@, origin_lons@, dest_lats@, dest_lons@, dist@, time@));
        lemma_od_matrix_entries(estimate, origin_lats@, origin_lons@, dest_lats@, dest_lons@, dist@, time@);
    }
    Ok((dist, time))
}


/// All estimator results of a square matrix over one list of points: the
/// strict upper triangle holds the estimates, the lower triangle mirrors it
/// and the diagonal holds `zero`.
pub open spec fn is_square_matrix<C, T, E: Fn(C, C, C, C) -> Result<(T, T), String>>(
    estimate: E,
    lats: Seq<C>,
    lons: Seq<C>,
    zero: T,
    dist: Seq<T>,
    time: Seq<T>,
) -> bool {
    let n = lats.len() as int;
    &&& dist.len() == n * n
    &&& time.len() == n * n
    &&& forall|i: int, j: int|
        0 <= i < j < n ==> call_ensures(
            estimate,
            (lats[i], lons[i], lats[j], lons[j]),
            Ok::<(T, T), String>((#[trigger] dist[cell_pos(i, j, n)], time[cell_pos(i, j, n)])),
        )
    &&& forall|i: int, j: int|
        0 <= i < n && 0 <= j < n ==> #[trigger] dist[cell_pos(i, j, n)] == dist[cell_pos(j, i, n)]
            && time[cell_pos(i, j, n)] == time[cell_pos(j, i, n)]
    &&& forall|i: int| 0 <= i < n ==> #[trigger] dist[cell_pos(i, i, n)] == zero && time[cell_pos(i, i, n)] == zero
}

/// `e` is the error of the first failing pair `i < j` in row-major order:
/// the estimator returned `Err(e)` on `(i, j)`, and returned `Ok` on every
/// pair `a < b` before it.
pub open spec fn first_failure<C, T, E: Fn(C, C, C, C) -> Result<(T, T), String>>(
    estimate: E,
    lats: Seq<C>,
    lons: Seq<C>,
    e: String,
) -> bool {
    exists|i: int, j: int|
        #![trigger lats[i], lats[j]]
        {
            &&& 0 <= i < j < lats.len()
            &&& call_ensures(estimate, (lats[i], lons[i], lats[j], lons[j]), Err::<(T, T), String>(e))
            &&& forall|a: int, b: int|
                0 <= a < b < lats.len() && (a < i || (a == i && b < j))
                    ==> #[trigger] succeeded(estimate, (lats[a], lons[a], lats[b], lons[b]))
        }
}

/// State of the square matrix after the pairs `(a, b)`, `a < b`, that come
/// before `(row, col)` in row-major order have been estimated.
spec fn square_filled_upto<C, T, E: Fn(C, C, C, C) -> Result<(T, T), String>>(
    estimate: E,
    lats: Seq<C>,
    lons: Seq<C>,
    zero: T,
    dist: Seq<T>,
    time: Seq<T>,
    row: int,
    col: int,
) -> bool {
    let n = lats.len() as int;
    &&& dist.len() == n * n
    &&& time.len() == n * n
    &&& forall|a: int, b: int|
        0 <= a < b < n && (a < row || (a == row && b < col)) ==> {
            &&& call_ensures(
                estimate,
                (lats[a], lons[a], lats[b], lons[b]),
                Ok::<(T, T), String>((#[trigger] dist[cell_pos(a, b, n)], time[cell_pos(a, b, n)])),
            )
            &&& dist[cell_pos(b, a, n)] == dist[cell_pos(a, b, n)]
            &&& time[cell_pos(b, a, n)] == time[cell_pos(a, b, n)]
        }
    &&& forall|a: int, b: int|
        0 <= a < b < n && !(a < row || (a == row && b < col)) ==> {
            &&& #[trigger] dist[cell_pos(a, b, n)] == zero
            &&& time[cell_pos(a, b, n)] == zero
            &&& dist[cell_pos(b, a, n)] == zero
            &&& time[cell_pos(b, a, n)] == zero
        }
    &&& forall|a: int| 0 <= a < n ==> #[trigger] dist[cell_pos(a, a, n)] == zero && time[cell_pos(a, a, n)] == zero
}

/// Storing the estimate of pair `(row, col)` at both mirrored positions
/// extends the filled part of the square matrix by that pair.
proof fn lemma_square_step<C, T, E: Fn(C, C, C, C) -> Result<(T, T), String>>(
    estimate: E,
    lats: Seq<C>,
    lons: Seq<C>,
    zero: T,
    old_dist: Seq<T>,
    old_time: Seq<T>,
    dist: Seq<T>,
    time: Seq<T>,
    row: int,
    col: int,
    d: T,
    t: T,
)
    requires
        0 <= row < col < lats.len(),
        square_filled_upto(estimate, lats, lons, zero, old_dist, old_time, row, col),
        call_ensures(estimate, (lats[row], lons[row], lats[col], lons[col]), Ok::<(T, T), String>((d, t))),
        dist == old_dist.update(cell_pos(row, col, lats.len() as int), d).update(cell_pos(col, row, lats.len() as int), d),
        time == old_time.update(cell_pos(row, col, lats.len() as int), t).update(cell_pos(col, row, lats.len() as int), t),
    ensures
        square_filled_upto(estimate, lats, lons, zero, dist, time, row, col + 1),
{
    let n = lats.len() as int;
    let rc = cell_pos(row, col, n);
    let cr = cell_pos(col, row, n);
    lemma_cell_pos_bounds(row, col, n, n);
    lemma_cell_pos_bounds(col, row, n, n);
    assert(rc != cr) by {
        if rc == cr {
            lemma_cell_pos_injective(row, col, col, row, n);
        }
    }
    assert forall|a: int, b: int| 0 <= a < n && 0 <= b < n && !(a == row && b == col) && !(a == col && b == row)
        implies #[trigger] dist[cell_pos(a, b, n)] == old_dist[cell_pos(a, b, n)]
        && time[cell_pos(a, b, n)] == old_time[cell_pos(a, b, n)] by {
        lemma_cell_pos_bounds(a, b, n, n);
        if cell_pos(a, b, n) == rc {
            lemma_cell_pos_injective(a, b, row, col, n);
        }
        if cell_pos(a, b, n) == cr {
            lemma_cell_pos_injective(a, b, col, row, n);
        }
    }
    assert(dist[rc] == d && dist[cr] == d && time[rc] == t && time[cr] == t);
    assert forall|a: int| 0 <= a < n implies #[trigger] dist[cell_pos(a, a, n)] == zero
        && time[cell_pos(a, a, n)] == zero by {
        assert(dist[cell_pos(a, a, n)] == old_dist[cell_pos(a, a, n)]);
    }
    assert forall|a: int, b: int|
        0 <= a < b < n && (a < row || (a == row && b < col + 1)) implies {
            &&& call_ensures(
                estimate,
                (lats[a], lons[a], lats[b], lons[b]),
                Ok::<(T, T), String>((#[trigger] dist[cell_pos(a, b, n)], time[cell_pos(a, b, n)])),
            )
            &&& dist[cell_pos(b, a, n)] == dist[cell_pos(a, b, n)]
            &&& time[cell_pos(b, a, n)] == time[cell_pos(a, b, n)]
        } by {
        if !(a == row && b == col) {
            assert(dist[cell_pos(a, b, n)] == old_dist[cell_pos(a, b, n)]);
            assert(dist[cell_pos(b, a, n)] == old_dist[cell_pos(b, a, n)]);
            let _ = old_dist[cell_pos(a, b, n)];
        }
    }
    assert forall|a: int, b: int|
        0 <= a < b < n && !(a < row || (a == row && b < col + 1)) implies {
            &&& #[trigger] dist[cell_pos(a, b, n)] == zero
            &&& time[cell_pos(a, b, n)] == zero
            &&& dist[cell_pos(b, a, n)] == zero
            &&& time[cell_pos(b, a, n)] == zero
        } by {
        assert(dist[cell_pos(a, b, n)] == old_dist[cell_pos(a, b, n)]);
        assert(dist[cell_pos(b, a, n)] == old_dist[cell_pos(b, a, n)]);
        let _ = old_dist[cell_pos(a, b, n)];
    }
}

/// Once every pair has been estimated, the matrix is complete.
proof fn lemma_square_complete<C, T, E: Fn(C, C, C, C) -> Result<(T, T), String>>(
    estimate: E,
    lats: Seq<C>,
    lons: Seq<C>,
    zero: T,
    dist: Seq<T>,
    time: Seq<T>,
)
    requires
        square_filled_upto(estimate, lats, lons, zero, dist, time, lats.len() as int, lats.len() as int + 1),
    ensures
        is_square_matrix(estimate, lats, lons, zero, dist, time),
{
    let ni = lats.len() as int;
    assert forall|a: int, b: int| 0 <= a < b < ni implies call_ensures(
        estimate,
        (lats[a], lons[a], lats[b], lons[b]),
        Ok::<(T, T), String>((#[trigger] dist[cell_pos(a, b, ni)], time[cell_pos(a, b, ni)])),
    ) by {
    }
    assert forall|a: int, b: int| 0 <= a < ni && 0 <= b < ni implies
        #[trigger] dist[cell_pos(a, b, ni)] == dist[cell_pos(b, a, ni)]
        && time[cell_pos(a, b, ni)] == time[cell_pos(b, a, ni)] by {
        if a < b {
            let _ = dist[cell_pos(a, b, ni)];
        } else if b < a {
            let _ = dist[cell_pos(b, a, ni)];
        }
    }
}

fn filled<T: Copy>(len: usize, value: T) -> (v: Vec<T>)
    ensures
        v.len() == len,
        forall|k: int| 0 <= k < len ==> v@[k] == value,
{
    let mut v: Vec<T> = Vec::new();
    let mut k: usize = 0;
    while k < len
        invariant
            k <= len,
            v.len() == k,
            forall|m: int| 0 <= m < k ==> v@[m] == value,
        decreases len - k,
    {
        v.push(value);
        k = k + 1;
    }
    v
}

/// A complete square matrix, entry by entry: the estimate of pair `i < j`
/// is stored at `i * n + j`, the matrix is symmetric, and the diagonal holds
/// `zero`.
pub proof fn lemma_square_matrix_entries<C, T, E: Fn(C, C, C, C) -> Result<(T, T), String>>(
    estimate: E,
    lats: Seq<C>,
    lons: Seq<C>,
    zero: T,
    dist: Seq<T>,
    time: Seq<T>,
)
    requires
        is_square_matrix(estimate, lats, lons, zero, dist, time),
    ensures
        dist.len() == lats.len() * lats.len(),
        time.len() == lats.len() * lats.len(),
        forall|i: int, j: int|
            0 <= i < j < lats.len() ==> call_ensures(
                estimate,
                (lats[i], lons[i], lats[j], lons[j]),
                Ok::<(T, T), String>((#[trigger] dist[i * lats.len() + j], time[i * lats.len() + j])),
            ),
        forall|i: int, j: int|
            0 <= i < lats.len() && 0 <= j < lats.len() ==> #[trigger] dist[i * lats.len() + j] == dist[j
                * lats.len() + i] && time[i * lats.len() + j] == time[j * lats.len() + i],
        forall|i: int|
            0 <= i < lats.len() ==> #[trigger] dist[i * lats.len() + i] == zero && time[i * lats.len() + i]
                == zero,
{
    let n = lats.len() as int;
    assert forall|i: int, j: int| 0 <= i < j < lats.len() implies call_ensures(
        estimate,
        (lats[i], lons[i], lats[j], lons[j]),
        Ok::<(T, T), String>((#[trigger] dist[i * lats.len() + j], time[i * lats.len() + j])),
    ) by {
        let _ = dist[cell_pos(i, j, n)];
    }
    assert forall|i: int, j: int| 0 <= i < lats.len() && 0 <= j < lats.len() implies #[trigger] dist[i
        * lats.len() + j] == dist[j * lats.len() + i] && time[i * lats.len() + j] == time[j * lats.len()
        + i] by {
        let _ = dist[cell_pos(i, j, n)];
    }
    assert forall|i: int| 0 <= i < lats.len() implies #[trigger] dist[i * lats.len() + i] == zero && time[i
        * lats.len() + i] == zero by {
        let _ = dist[cell_pos(i, i, n)];
    }
}

/// Compute square distance and time matrices over one list of points.
///
/// Each pair `i < j` is estimated once, in row-major order, and its result
/// is stored at both `i * n + j` and `j * n + i`; the diagonal holds `zero`.
pub fn compute_matrix<C: Copy, T: Copy, E: Fn(C, C, C, C) -> Result<(T, T), String>>(
    lats: &[C],
    lons: &[C],
    zero: T,
    estimate: E,
) -> (res: Result<(Vec<T>, Vec<T>), String>)
    requires
        lats.len() == lons.len() ==> lats.len() * lats.len() <= usize::MAX,
        forall|i: int, j: int|
            0 <= i < j < lats.len() && lats.len() == lons.len() ==> call_requires(
                estimate,
                (lats[i], lons[i], lats[j], lons[j]),
            ),
    ensures
        lats.len() != lons.len() ==> (res matches Err(e) && e@ == LENGTH_MISMATCH@),
        lats.len() == lons.len() ==> match res {
            Ok((dist, time)) => is_square_matrix(estimate, lats@, lons@, zero, dist@, time@),
            Err(e) => first_failure(estimate, lats@, lons@, e),
        },
        lats.len() == lons.len() && never_fails(estimate) ==> res is Ok,
        lats.len() == lons.len() && (forall|args: (C, C, C, C), r: Result<(T, T), String>|
            #[trigger] call_ensures(estimate, args, r) ==> r is Ok) ==> res is Ok,
{
    let n = lats.len();
    if n != lons.len() {
        return Err(String::from_str(LENGTH_MISMATCH));
    }
    let mut dist = filled(n * n, zero);
    let mut time = filled(n * n, zero);
    let ghost ni = n as int;
    proof {
        assert forall|a: int| 0 <= a < ni implies #[trigger] dist@[cell_pos(a, a, ni)] == zero
            && time@[cell_pos(a, a, ni)] == zero by {
            lemma_cell_pos_bounds(a, a, ni, ni);
        }
        assert forall|a: int, b: int| 0 <= a < b < ni implies
            #[trigger] dist@[cell_pos(a, b, ni)] == zero && time@[cell_pos(a, b, ni)] == zero
            && dist@[cell_pos(b, a, ni)] == zero && time@[cell_pos(b, a, ni)] == zero by {
            lemma_cell_pos_bounds(a, b, ni, ni);
            lemma_cell_pos_bounds(b, a, ni, ni);
        }
    }
    let mut i: usize = 0;
    while i < n
        invariant
            n == lats.len() == lons.len(),
            ni == n,
            n * n <= usize::MAX,
            0 <= i <= n,
            forall|a: int, b: int|
                0 <= a < b < n ==> call_requires(estimate, (lats[a], lons[a], lats[b], lons[b])),
            square_filled_upto(estimate, lats@, lons@, zero, dist@, time@, i as int, i as int + 1),
        decreases n - i,
    {
        let mut j: usize = i + 1;
        while j < n
            invariant
                n == lats.len() == lons.len(),
                ni == n,
                n * n <= usize::MAX,
                0 <= i < n,
                i + 1 <= j <= n,
                forall|a: int, b: int|
                    0 <= a < b < n ==> call_requires(estimate, (lats[a], lons[a], lats[b], lons[b])),
                square_filled_upto(estimate, lats@, lons@, zero, dist@, time@, i as int, j as int),
            decreases n - j,
        {
            let outcome = estimate(lats[i], lons[i], lats[j], lons[j]);
            let (d, t) = match outcome {
                Ok(pair) => pair,
                Err(e) => {
                    proof {
                        assert(call_ensures(
                            estimate,
                            (lats@[i as int], lons@[i as int], lats@[j as int], lons@[j as int]),
                            Err::<(T, T), String>(e),
                        ));
                        assert forall|a: int, b: int|
                            0 <= a < b < n && (a < i || (a == i && b < j)) implies
                            #[trigger] succeeded(estimate, (lats@[a], lons@[a], lats@[b], lons@[b])) by {
                            let _ = dist@[cell_pos(a, b, ni)];
                        }
                        assert(first_failure(estimate, lats@, lons@, e));
                    }
                    return Err(e);
                },
            };
            proof {
                lemma_cell_pos_bounds(i as int, j as int, ni, ni);
                lemma_cell_pos_bounds(j as int, i as int, ni, ni);
            }
            let ghost old_dist = dist@;
            let ghost old_time = time@;
            let ij = i * n + j;
            let ji = j * n + i;
            dist.set(ij, d);
            dist.set(ji, d);
            time.set(ij, t);
            time.set(ji, t);
            proof {
                lemma_square_step(estimate, lats@, lons@, zero, old_dist, old_time, dist@, time@, i as int, j as int, d, t);
            }
            j = j + 1;
        }
        i = i + 1;
        proof {
            assert(square_filled_upto(estimate, lats@, lons@, zero, dist@, time@, i as int, i as int + 1));
        }
    }
    proof {
        lemma_square_complete(estimate, lats@, lons@, zero, dist@, time@);
    }
    Ok((dist, time))
}

/// The square matrix over a list of points is the origins-by-destinations
/// matrix with those same points as origins and as destinations, when the
/// estimator is a function of its arguments (`value`), gives the same
/// result both ways between two points, and gives `(zero, zero)` from a
/// point to itself.
pub proof fn lemma_square_matrix_is_od_matrix<C, T, E: Fn(C, C, C, C) -> Result<(T, T), String>>(
    estimate: E,
    value: spec_fn(C, C, C, C) -> (T, T),
    lats: Seq<C>,
    lons: Seq<C>,
    zero: T,
    square_dist: Seq<T>,
    square_time: Seq<T>,
    od_dist: Seq<T>,
    od_time: Seq<T>,
)
    requires
        lats.len() == lons.len(),
        forall|args: (C, C, C, C), r: Result<(T, T), String>|
            #[trigger] call_ensures(estimate, args, r) ==> r == Ok::<(T, T), String>(
                value(args.0, args.1, args.2, args.3),
            ),
        forall|a: C, b: C, c: C, d: C| #[trigger] value(a, b, c, d) == value(c, d, a, b),
        forall|a: C, b: C| #[trigger] value(a, b, a, b) == (zero, zero),
        is_square_matrix(estimate, lats, lons, zero, square_dist, square_time),
        is_od_matrix(estimate, lats, lons, lats, lons, od_dist, od_time),
    ensures
        square_dist == od_dist,
        square_time == od_time,
{
    let n = lats.len() as int;
    assert forall|k: int| 0 <= k < n * n implies square_dist[k] == od_dist[k] && square_time[k] == od_time[k] by {
        let i = k / n;
        let j = k % n;
        assert(n > 0) by (nonlinear_arith)
            requires
                0 <= k < n * n,
                n >= 0,
        ;
        vstd::arithmetic::div_mod::lemma_fundamental_div_mod(k, n);
        vstd::arithmetic::div_mod::lemma_mod_bound(k, n);
        assert(0 <= i < n) by (nonlinear_arith)
            requires
                0 <= k < n * n,
                k == n * i + j,
                0 <= j < n,
        ;
        vstd::arithmetic::mul::lemma_mul_is_commutative(n, i);
        assert(k == cell_pos(i, j, n));
        let _ = od_dist[cell_pos(i, j, n)];
        let _ = square_dist[cell_pos(i, j, n)];
        if i < j {
            let _ = value(lats[i], lons[i], lats[j], lons[j]);
        } else if j < i {
            let _ = square_dist[cell_pos(j, i, n)];
            let _ = value(lats[j], lons[j], lats[i], lons[i]);
        } else {
            let _ = value(lats[i], lons[i], lats[i], lons[i]);
        }
    }
    assert(square_dist =~= od_dist);
    assert(square_time =~= od_time);
}

/// `succeeded` holds exactly when the estimator has some `Ok` outcome on
/// the arguments.
pub proof fn lemma_succeeded_means_ok<C, T, E: Fn(C, C, C, C) -> Result<(T, T), String>>(
    estimate: E,
    args: (C, C, C, C),
)
    ensures
        succeeded(estimate, args) <==> exists|v: (T, T)|
            #[trigger] call_ensures(estimate, args, Ok::<(T, T), String>(v)),
{
}

/// The error of a square matrix comes from the first failing pair in
/// row-major order: the estimator returned it on a pair `i < j`, and
/// succeeded on every pair `a < b` before it, whatever the number of points.
pub proof fn lemma_square_error_is_first<C, T, E: Fn(C, C, C, C) -> Result<(T, T), String>>(
    estimate: E,
    lats: Seq<C>,
    lons: Seq<C>,
    e: String,
)
    requires
        first_failure(estimate, lats, lons, e),
    ensures
        exists|i: int, j: int|
            #![trigger lats[i], lats[j]]
            {
                &&& 0 <= i < j < lats.len()
                &&& call_ensures(estimate, (lats[i], lons[i], lats[j], lons[j]), Err::<(T, T), String>(e))
                &&& forall|a: int, b: int|
                    0 <= a < b < lats.len() && (a < i || (a == i && b < j))
                        ==> #[trigger] succeeded(estimate, (lats[a], lons[a], lats[b], lons[b]))
            },
{
}

/// The error of an origins-by-destinations matrix comes from the first
/// failing pair in row-major order: the estimator returned it on a pair
/// `(i, j)`, and succeeded on every pair `(a, b)` before it.
pub proof fn lemma_od_error_is_first<C, T, E: Fn(C, C, C, C) -> Result<(T, T), String>>(
    estimate: E,
    origin_lats: Seq<C>,
    origin_lons: Seq<C>,
    dest_lats: Seq<C>,
    dest_lons: Seq<C>,
    e: String,
)
    requires
        od_first_failure(estimate, origin_lats, origin_lons, dest_lats, dest_lons, e),
    ensures
        exists|i: int, j: int|
            #![trigger origin_lats[i], dest_lats[j]]
            {
                &&& 0 <= i < origin_lats.len()
                &&& 0 <= j < dest_lats.len()
                &&& call_ensures(
                    estimate,
                    (origin_lats[i], origin_lons[i], dest_lats[j], dest_lons[j]),
                    Err::<(T, T), String>(e),
                )
                &&& forall|a: int, b: int|
                    0 <= a < origin_lats.len() && 0 <= b < dest_lats.len() && (a < i || (a == i && b < j))
                        ==> #[trigger] succeeded(estimate, (origin_lats[a], origin_lons[a], dest_lats[b], dest_lons[b]))
            },
{
}

} // verus!
