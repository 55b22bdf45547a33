//! Strided assignment of rows to workers: worker `t` out of `T` owns rows
//! `t, t + T, t + 2T, ...` below `n`.
use vstd::prelude::*;
use vstd::arithmetic::div_mod::{lemma_fundamental_div_mod, lemma_fundamental_div_mod_converse};

verus! {

/// The number of rows below `n` that worker `thread_id` owns out of `thread_count`.
pub open spec fn owned_row_count(thread_id: int, thread_count: int, n: int) -> int {
    if thread_id < n {
        (n - thread_id + thread_count - 1) / thread_count
    } else {
        0
    }
}

/// No worker owns a negative number of rows.
pub proof fn lemma_owned_row_count_nonnegative(thread_id: int, thread_count: int, n: int)
    requires
        0 <= thread_id,
        thread_count > 0,
    ensures
        owned_row_count(thread_id, thread_count, n) >= 0,
        assigned_rows(thread_id, thread_count, n).len() == owned_row_count(thread_id, thread_count, n),
{
    if thread_id < n {
        assert((n - thread_id + thread_count - 1) / thread_count >= 0) by (nonlinear_arith)
            requires
                n - thread_id + thread_count - 1 >= 0,
                thread_count > 0,
        ;
    }
}

/// The rows owned by worker `thread_id`, in increasing order.
pub open spec fn assigned_rows(thread_id: int, thread_count: int, n: int) -> Seq<int> {
    Seq::new(owned_row_count(thread_id, thread_count, n) as nat, |m: int| thread_id + m * thread_count)
}

/// Computes the rows that worker `thread_id` updates, once for the whole solve.
pub fn row_assignment(thread_id: usize, thread_count: usize, n: usize) -> (r: Vec<usize>)
    requires
        thread_count > 0,
    ensures
        r@.len() == owned_row_count(thread_id as int, thread_count as int, n as int),
        forall|m: int| 0 <= m < r@.len() ==> r@[m] as int == thread_id + m * thread_count,
{
    let mut rows: Vec<usize> = Vec::new();
    if thread_id >= n {
        return rows;
    }
    let mut row: usize = thread_id;
    assert(rows@.len() * thread_count == 0) by (nonlinear_arith)
        requires
            rows@.len() == 0,
    ;
    loop
        invariant_except_break
            row < n,
            row as int == thread_id + rows@.len() * thread_count,
        invariant
            thread_id < n,
            thread_count > 0,
            forall|m: int| 0 <= m < rows@.len() ==> rows@[m] as int == thread_id + m * thread_count,
        ensures
            rows@.len() >= 1,
            0 <= n - 1 - rows@.last() < thread_count,
        decreases n - row,
    {
        rows.push(row);
        if n - row <= thread_count {
            break;
        }
        row = row + thread_count;
        assert(row as int == thread_id + rows@.len() * thread_count) by (nonlinear_arith)
            requires
                row as int == thread_id + (rows@.len() - 1) * thread_count + thread_count,
        ;
    }
    proof {
        let len = rows@.len() as int;
        let t = thread_count as int;
        let d = n as int - thread_id as int;
        assert(d - 1 - (len - 1) * t == n - 1 - rows@[len - 1]) by (nonlinear_arith)
            requires
                rows@[len - 1] as int == thread_id + (len - 1) * t,
                d == n as int - thread_id as int,
        ;
        assert((d + t - 1) / t == len) by (nonlinear_arith)
            requires
                t > 0,
                len >= 1,
                0 <= d - 1 - (len - 1) * t < t,
        ;
    }
    rows
}

/// Every row that a worker owns lies below `n`.
pub proof fn lemma_assigned_row_bound(thread_id: int, thread_count: int, n: int, m: int)
    requires
        0 <= thread_id,
        thread_count > 0,
        0 <= m < owned_row_count(thread_id, thread_count, n),
    ensures
        0 <= assigned_rows(thread_id, thread_count, n)[m] < n,
{
    let d = n - thread_id;
    let c = owned_row_count(thread_id, thread_count, n);
    assert(m * thread_count <= (c - 1) * thread_count) by (nonlinear_arith)
        requires
            0 <= m <= c - 1,
            thread_count > 0,
    ;
    assert((c - 1) * thread_count < d) by (nonlinear_arith)
        requires
            c == (d + thread_count - 1) / thread_count,
            d > 0,
            thread_count > 0,
    ;
    assert(m * thread_count >= 0) by (nonlinear_arith)
        requires
            m >= 0,
            thread_count > 0,
    ;
}

/// The strided partition is exact: every row below `n` is owned by worker
/// `row % thread_count`, at position `row / thread_count` of its rows, and by
/// no other worker at any other position.
pub proof fn lemma_partition_exact(row: int, thread_count: int, n: int)
    requires
        0 <= row < n,
        thread_count > 0,
    ensures
        0 <= row / thread_count < owned_row_count(row % thread_count, thread_count, n),
        assigned_rows(row % thread_count, thread_count, n)[row / thread_count] == row,
        forall|t: int, m: int|
            0 <= t < thread_count && 0 <= m < owned_row_count(t, thread_count, n)
                && #[trigger] assigned_rows(t, thread_count, n)[m] == row ==> t == row % thread_count
                && m == row / thread_count,
{
    let t0 = row % thread_count;
    let m0 = row / thread_count;
    lemma_fundamental_div_mod(row, thread_count);
    assert(row == t0 + m0 * thread_count) by (nonlinear_arith)
        requires
            row == thread_count * m0 + t0,
    ;
    assert(m0 >= 0) by (nonlinear_arith)
        requires
            row >= 0,
            thread_count > 0,
            m0 == row / thread_count,
    ;
    let c = owned_row_count(t0, thread_count, n);
    assert(c == (n - t0 + thread_count - 1) / thread_count);
    assert(m0 < c) by (nonlinear_arith)
        requires
            c == (n - t0 + thread_count - 1) / thread_count,
            row == t0 + m0 * thread_count,
            row < n,
            thread_count > 0,
            0 <= t0 < thread_count,
            m0 >= 0,
    {
        assert(n - t0 + thread_count - 1 >= (m0 + 1) * thread_count);
    }
    assert forall|t: int, m: int|
        0 <= t < thread_count && 0 <= m < owned_row_count(t, thread_count, n)
            && #[trigger] assigned_rows(t, thread_count, n)[m] == row implies t == t0 && m == m0 by {
        lemma_fundamental_div_mod_converse(row, thread_count, m, t);
    }
}

/// Distinct workers own disjoint rows.
pub proof fn lemma_assignments_disjoint(t1: int, t2: int, thread_count: int, n: int, m1: int, m2: int)
    requires
        0 <= t1 < thread_count,
        0 <= t2 < thread_count,
        t1 != t2,
        0 <= m1 < owned_row_count(t1, thread_count, n),
        0 <= m2 < owned_row_count(t2, thread_count, n),
    ensures
        assigned_rows(t1, thread_count, n)[m1] != assigned_rows(t2, thread_count, n)[m2],
{
    let row = assigned_rows(t1, thread_count, n)[m1];
    lemma_assigned_row_bound(t1, thread_count, n, m1);
    lemma_partition_exact(row, thread_count, n);
}

/// A worker whose index is not below the number of rows owns no row.
pub proof fn lemma_surplus_worker_owns_nothing(thread_id: int, thread_count: int, n: int)
    requires
        thread_id >= n,
        thread_count > 0,
    ensures
        assigned_rows(thread_id, thread_count, n).len() == 0,
{
}

} // verus!
