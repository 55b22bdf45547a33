//! Laws of the whole pool of workers sharing one history: each cell has a
//! single writer that writes it once, the rows stay partitioned, and no
//! worker waits forever within an iteration: under Gauss-Seidel polling a row
//! left in the lowest iteration in progress always lets some worker compute,
//! and under Jacobi a worker past the rendezvous computes at once.
use vstd::prelude::*;
use crate::history::{gauss_seidel_ready, resolved};
use crate::partition::{
    assigned_rows, lemma_assignments_disjoint, lemma_owned_row_count_nonnegative, lemma_partition_exact,
};
use crate::worker::{Method, WorkerState};

verus! {

/// A fresh worker's records match a fresh history: it has recorded nothing
/// and no cell after the initial row holds a value.
pub proof fn lemma_initial_records_match<T>(w: WorkerState, h: Seq<Seq<Option<T>>>)
    requires
        w.wf(),
        w.iteration == 1,
        w.position == 0,
        forall|k: int, i: int| 1 <= k < h.len() && 0 <= i < w.width ==> (#[trigger] h[k][i]).is_none(),
    ensures
        w.records_match(h),
{
    assert forall|k: int, m: int| 1 <= k < h.len() && 0 <= m < w.rows.len() implies (#[trigger] h[k][w.rows[m] as int]).is_some()
        == (k < w.iteration || (k == w.iteration && m < w.position)) by {
        assert(w.rows[m] < w.width);
    }
}

/// A single writer per cell: while a worker's records match the history, the
/// cell it is told to compute is still unknown, so recording it writes the
/// value; afterwards its records match again.
pub proof fn lemma_record_writes_once<T>(w: WorkerState, h: Seq<Seq<Option<T>>>, value: T)
    requires
        w.wf(),
        w.records_match(h),
        w.iterations == h.len(),
        forall|q: int| 0 <= q < h.len() ==> (#[trigger] h[q]).len() == w.width,
        w.next_action(h) is Compute,
    ensures
        ({
            let k = w.iteration as int;
            let i = w.rows[w.position as int] as int;
            let h2 = h.update(k, h[k].update(i, Some(value)));
            &&& h[k][i].is_none()
            &&& (WorkerState { position: w.position + 1, ..w }).records_match(h2)
        }),
{
    let k = w.iteration as int;
    let p = w.position as int;
    let i = w.rows[p] as int;
    assert(h[k][w.rows[p] as int].is_some() == (k < w.iteration || (k == w.iteration && p < w.position)));
    let h2 = h.update(k, h[k].update(i, Some(value)));
    let w2 = WorkerState { position: w.position + 1, ..w };
    assert forall|q: int, m: int| 1 <= q < h2.len() && 0 <= m < w2.rows.len() implies (#[trigger] h2[q][w2.rows[m] as int]).is_some()
        == (q < w2.iteration || (q == w2.iteration && m < w2.position)) by {
        assert(h[q][w.rows[m] as int].is_some() == (q < w.iteration || (q == w.iteration && m < w.position)));
        assert(w.rows[m] < w.width);
        if m != p {
            assert(w.rows[m] != w.rows[p]);
        }
    }
}

/// A write by another worker leaves a worker's records matching, when the
/// written row is not one of its rows (as the partition guarantees).
pub proof fn lemma_foreign_write_keeps_records<T>(w: WorkerState, h: Seq<Seq<Option<T>>>, k: int, i: int, value: T)
    requires
        w.wf(),
        w.records_match(h),
        forall|q: int| 0 <= q < h.len() ==> (#[trigger] h[q]).len() == w.width,
        0 <= k < h.len(),
        0 <= i < w.width,
        forall|m: int| 0 <= m < w.rows.len() ==> #[trigger] w.rows[m] != i,
    ensures
        w.records_match(h.update(k, h[k].update(i, Some(value)))),
{
    let h2 = h.update(k, h[k].update(i, Some(value)));
    assert forall|q: int, m: int| 1 <= q < h2.len() && 0 <= m < w.rows.len() implies (#[trigger] h2[q][w.rows[m] as int]).is_some()
        == (q < w.iteration || (q == w.iteration && m < w.position)) by {
        assert(h[q][w.rows[m] as int].is_some() == (q < w.iteration || (q == w.iteration && m < w.position)));
        assert(w.rows[m] != i);
        assert(w.rows[m] < w.width);
    }
}

/// Ending an iteration after all owned rows are recorded keeps a worker's
/// records matching, whether it stops or moves on.
pub proof fn lemma_complete_keeps_records<T>(w: WorkerState, h: Seq<Seq<Option<T>>>)
    requires
        w.records_match(h),
        w.position == w.rows.len(),
    ensures
        (WorkerState { finished: true, ..w }).records_match(h),
        (WorkerState { iteration: w.iteration + 1, position: 0, ..w }).records_match(h),
{
    let w2 = WorkerState { iteration: w.iteration + 1, position: 0, ..w };
    assert forall|q: int, m: int| 1 <= q < h.len() && 0 <= m < w2.rows.len() implies (#[trigger] h[q][w2.rows[m] as int]).is_some()
        == (q < w2.iteration || (q == w2.iteration && m < w2.position)) by {
        assert(h[q][w.rows[m] as int].is_some() == (q < w.iteration || (q == w.iteration && m < w.position)));
    }
}

/// A pool of workers is consistent with the history `h` of `width` columns:
/// every worker is well formed over that width, its records match `h`, and no
/// row belongs to two workers.
pub open spec fn pool_consistent<T>(ws: Seq<WorkerState>, h: Seq<Seq<Option<T>>>, width: nat) -> bool {
    &&& forall|q: int| 0 <= q < h.len() ==> (#[trigger] h[q]).len() == width
    &&& forall|j: int|
        0 <= j < ws.len() ==> (#[trigger] ws[j]).wf() && ws[j].width == width && ws[j].records_match(h)
    &&& forall|j1: int, j2: int, m1: int, m2: int|
        0 <= j1 < ws.len() && 0 <= j2 < ws.len() && j1 != j2 && 0 <= m1 < ws[j1].rows.len() && 0 <= m2
            < ws[j2].rows.len() ==> #[trigger] ws[j1].rows[m1] != #[trigger] ws[j2].rows[m2]
}

/// The workers of a fresh solve form a consistent pool: worker `t` of
/// `ws.len()` owns the strided rows of `t` and has recorded nothing, and no
/// cell after the initial row holds a value.
pub proof fn lemma_pool_initial<T>(ws: Seq<WorkerState>, h: Seq<Seq<Option<T>>>, width: nat)
    requires
        ws.len() > 0,
        forall|q: int| 0 <= q < h.len() ==> (#[trigger] h[q]).len() == width,
        forall|k: int, i: int| 1 <= k < h.len() && 0 <= i < width ==> (#[trigger] h[k][i]).is_none(),
        forall|t: int|
            0 <= t < ws.len() ==> (#[trigger] ws[t]).wf() && ws[t].width == width && ws[t].iteration == 1
                && ws[t].position == 0 && ws[t].rows.map_values(|row: usize| row as int) == assigned_rows(
                t,
                ws.len() as int,
                width as int,
            ),
    ensures
        pool_consistent(ws, h, width),
{
    assert forall|j: int| 0 <= j < ws.len() implies (#[trigger] ws[j]).wf() && ws[j].width == width && ws[j].records_match(h) by {
        lemma_initial_records_match(ws[j], h);
    }
    assert forall|j1: int, j2: int, m1: int, m2: int|
        0 <= j1 < ws.len() && 0 <= j2 < ws.len() && j1 != j2 && 0 <= m1 < ws[j1].rows.len() && 0 <= m2
            < ws[j2].rows.len() implies #[trigger] ws[j1].rows[m1] != #[trigger] ws[j2].rows[m2] by {
        let c = ws.len() as int;
        assert(ws[j1].rows.map_values(|row: usize| row as int)[m1] == assigned_rows(j1, c, width as int)[m1]);
        assert(ws[j2].rows.map_values(|row: usize| row as int)[m2] == assigned_rows(j2, c, width as int)[m2]);
        lemma_owned_row_count_nonnegative(j1, c, width as int);
        lemma_owned_row_count_nonnegative(j2, c, width as int);
        lemma_assignments_disjoint(j1, j2, c, width as int, m1, m2);
    }
}

/// In a consistent pool, the cell that any worker is told to compute is still
/// unknown, so its single owner writes it exactly once; after the write and the
/// owner's step to its next row, the pool is consistent again.
pub proof fn lemma_pool_record<T>(ws: Seq<WorkerState>, h: Seq<Seq<Option<T>>>, width: nat, j: int, value: T)
    requires
        pool_consistent(ws, h, width),
        0 <= j < ws.len(),
        ws[j].iterations == h.len(),
        ws[j].next_action(h) is Compute,
    ensures
        ({
            let w = ws[j];
            let k = w.iteration as int;
            let i = w.rows[w.position as int] as int;
            let h2 = h.update(k, h[k].update(i, Some(value)));
            &&& h[k][i].is_none()
            &&& pool_consistent(ws.update(j, WorkerState { position: w.position + 1, ..w }), h2, width)
        }),
{
    let w = ws[j];
    let k = w.iteration as int;
    let p = w.position as int;
    let i = w.rows[p] as int;
    let h2 = h.update(k, h[k].update(i, Some(value)));
    let w2 = WorkerState { position: w.position + 1, ..w };
    let ws2 = ws.update(j, w2);
    lemma_record_writes_once(w, h, value);
    assert forall|q: int| 0 <= q < h2.len() implies (#[trigger] h2[q]).len() == width by {
        assert(h[q].len() == width);
    }
    assert forall|o: int| 0 <= o < ws2.len() implies (#[trigger] ws2[o]).wf() && ws2[o].width == width && ws2[o].records_match(h2) by {
        if o != j {
            assert forall|m: int| 0 <= m < ws[o].rows.len() implies #[trigger] ws[o].rows[m] != i by {
                assert(ws[o].rows[m] != ws[j].rows[p]);
            }
            lemma_foreign_write_keeps_records(ws[o], h, k, i, value);
        }
    }
    assert forall|j1: int, j2: int, m1: int, m2: int|
        0 <= j1 < ws2.len() && 0 <= j2 < ws2.len() && j1 != j2 && 0 <= m1 < ws2[j1].rows.len() && 0 <= m2
            < ws2[j2].rows.len() implies #[trigger] ws2[j1].rows[m1] != #[trigger] ws2[j2].rows[m2] by {
        assert(ws2[j1].rows == ws[j1].rows);
        assert(ws2[j2].rows == ws[j2].rows);
        assert(ws[j1].rows[m1] != ws[j2].rows[m2]);
    }
}

/// In a consistent pool, a worker that has recorded all its rows of the
/// current iteration may stop or move on to the next iteration, and the pool
/// stays consistent.
pub proof fn lemma_pool_complete<T>(ws: Seq<WorkerState>, h: Seq<Seq<Option<T>>>, width: nat, j: int, converged: bool)
    requires
        pool_consistent(ws, h, width),
        0 <= j < ws.len(),
        ws[j].position == ws[j].rows.len(),
    ensures
        ({
            let w = ws[j];
            let w2 = if converged {
                WorkerState { finished: true, ..w }
            } else {
                WorkerState { iteration: w.iteration + 1, position: 0, ..w }
            };
            pool_consistent(ws.update(j, w2), h, width)
        }),
{
    let w = ws[j];
    let w2 = if converged {
        WorkerState { finished: true, ..w }
    } else {
        WorkerState { iteration: w.iteration + 1, position: 0, ..w }
    };
    let ws2 = ws.update(j, w2);
    lemma_complete_keeps_records(w, h);
    assert forall|o: int| 0 <= o < ws2.len() implies (#[trigger] ws2[o]).wf() && ws2[o].width == width && ws2[o].records_match(h) by {
        if o == j {
            assert(w.iteration >= 1);
        }
    }
    assert forall|j1: int, j2: int, m1: int, m2: int|
        0 <= j1 < ws2.len() && 0 <= j2 < ws2.len() && j1 != j2 && 0 <= m1 < ws2[j1].rows.len() && 0 <= m2
            < ws2[j2].rows.len() implies #[trigger] ws2[j1].rows[m1] != #[trigger] ws2[j2].rows[m2] by {
        assert(ws2[j1].rows == ws[j1].rows);
        assert(ws2[j2].rows == ws[j2].rows);
        assert(ws[j1].rows[m1] != ws[j2].rows[m2]);
    }
}

/// Worker `j` of the pool owns row `i`, at position `m` of its rows.
pub open spec fn owns_row(ws: Seq<WorkerState>, j: int, m: int, i: int) -> bool {
    0 <= j < ws.len() && 0 <= m < ws[j].rows.len() && ws[j].rows[m] == i
}

/// Some worker of the pool owns row `i`.
pub open spec fn row_owned(ws: Seq<WorkerState>, i: int) -> bool {
    exists|j: int, m: int| #[trigger] owns_row(ws, j, m, i)
}

/// Every row of the system belongs to some worker of the pool.
pub open spec fn pool_covers(ws: Seq<WorkerState>, width: nat) -> bool {
    forall|i: int| 0 <= i < width ==> #[trigger] row_owned(ws, i)
}

/// The workers of a fresh solve cover every row: row `i` belongs to worker
/// `i % ws.len()`.
pub proof fn lemma_pool_initial_covers(ws: Seq<WorkerState>, width: nat)
    requires
        ws.len() > 0,
        forall|t: int|
            0 <= t < ws.len() ==> (#[trigger] ws[t]).rows.map_values(|row: usize| row as int) == assigned_rows(
                t,
                ws.len() as int,
                width as int,
            ),
    ensures
        pool_covers(ws, width),
{
    assert forall|i: int| 0 <= i < width implies #[trigger] row_owned(ws, i) by {
        let c = ws.len() as int;
        lemma_partition_exact(i, c, width as int);
        let t = i % c;
        let m = i / c;
        lemma_owned_row_count_nonnegative(t, c, width as int);
        assert(ws[t].rows.map_values(|row: usize| row as int)[m] == assigned_rows(t, c, width as int)[m]);
        assert(owns_row(ws, t, m, i));
    }
}

/// A step of one worker keeps its rows, so the pool still covers every row.
pub proof fn lemma_step_keeps_cover(ws: Seq<WorkerState>, width: nat, j: int, w2: WorkerState)
    requires
        pool_covers(ws, width),
        0 <= j < ws.len(),
        w2.rows == ws[j].rows,
    ensures
        pool_covers(ws.update(j, w2), width),
{
    let ws2 = ws.update(j, w2);
    assert forall|i: int| 0 <= i < width implies #[trigger] row_owned(ws2, i) by {
        assert(row_owned(ws, i));
        let (o, m) = choose|o: int, m: int| #[trigger] owns_row(ws, o, m, i);
        assert(owns_row(ws2, o, m, i));
    }
}

/// Gauss-Seidel polling cannot deadlock within an iteration: in a consistent
/// pool that covers every row, where no worker is behind iteration `k` and a
/// worker stops only after its last row, if some worker has a row of `k` left
/// then some worker can compute a row now. The dependencies point only to
/// lower rows of the same iteration and to the previous iteration, so the
/// lowest pending row always has its dependencies resolved.
pub proof fn lemma_gauss_seidel_progress<T>(ws: Seq<WorkerState>, h: Seq<Seq<Option<T>>>, width: nat, k: int, j: int)
    requires
        pool_consistent(ws, h, width),
        pool_covers(ws, width),
        1 <= k < h.len(),
        resolved(h[0]),
        forall|o: int|
            0 <= o < ws.len() ==> (#[trigger] ws[o]).method == Method::GaussSeidel && ws[o].iterations == h.len()
                && ws[o].iteration >= k && (ws[o].finished ==> ws[o].position == ws[o].rows.len()),
        0 <= j < ws.len(),
        ws[j].iteration == k,
        ws[j].position < ws[j].rows.len(),
    ensures
        exists|c: int| 0 <= c < ws.len() && (#[trigger] ws[c].next_action(h)) is Compute,
    decreases ws[j].rows[ws[j].position as int],
{
    let w = ws[j];
    let i = w.rows[w.position as int] as int;
    assert(w.wf() && w.records_match(h));
    assert(i < width);
    assert forall|q: int| i < q < h[k - 1].len() implies (#[trigger] h[k - 1][q]).is_some() by {
        if k - 1 > 0 {
            assert(h[k - 1].len() == width);
            assert(row_owned(ws, q));
            let (o, m) = choose|o: int, m: int| #[trigger] owns_row(ws, o, m, q);
            assert(ws[o].records_match(h));
            assert(h[k - 1][ws[o].rows[m] as int].is_some() == (k - 1 < ws[o].iteration || (k - 1 == ws[o].iteration
                && m < ws[o].position)));
        }
    }
    if gauss_seidel_ready(h, k, i) {
        assert(w.next_action(h) is Compute);
    } else {
        let q = choose|q: int| 0 <= q < i && !(#[trigger] h[k][q]).is_some();
        assert(row_owned(ws, q));
        let (o, m) = choose|o: int, m: int| #[trigger] owns_row(ws, o, m, q);
        let wo = ws[o];
        assert(wo.wf() && wo.records_match(h));
        assert(h[k][wo.rows[m] as int].is_some() == (k < wo.iteration || (k == wo.iteration && m < wo.position)));
        assert(wo.iteration == k);
        assert(m >= wo.position);
        if m > wo.position {
            assert(wo.rows[wo.position as int] < wo.rows[m]);
        }
        lemma_gauss_seidel_progress(ws, h, width, k, o);
    }
}

/// Jacobi never waits once the pool has passed the rendezvous of iteration
/// `k - 1`: in a consistent pool that covers every row, where no worker is
/// behind iteration `k`, iteration `k - 1` is fully resolved, so a worker with
/// a row of `k` left computes it at once.
pub proof fn lemma_jacobi_progress<T>(ws: Seq<WorkerState>, h: Seq<Seq<Option<T>>>, width: nat, k: int, j: int)
    requires
        pool_consistent(ws, h, width),
        pool_covers(ws, width),
        1 <= k < h.len(),
        resolved(h[0]),
        forall|o: int| 0 <= o < ws.len() ==> (#[trigger] ws[o]).iteration >= k,
        0 <= j < ws.len(),
        ws[j].method == Method::Jacobi,
        ws[j].iterations == h.len(),
        !ws[j].finished,
        ws[j].iteration == k,
        ws[j].position < ws[j].rows.len(),
    ensures
        resolved(h[k - 1]),
        ws[j].next_action(h) is Compute,
{
    assert forall|q: int| 0 <= q < h[k - 1].len() implies (#[trigger] h[k - 1][q]).is_some() by {
        if k - 1 > 0 {
            assert(h[k - 1].len() == width);
            assert(row_owned(ws, q));
            let (o, m) = choose|o: int, m: int| #[trigger] owns_row(ws, o, m, q);
            assert(ws[o].records_match(h));
            assert(h[k - 1][ws[o].rows[m] as int].is_some() == (k - 1 < ws[o].iteration || (k - 1 == ws[o].iteration
                && m < ws[o].position)));
        }
    }
}

} // verus!
