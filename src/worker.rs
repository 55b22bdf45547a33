//! The decisions of one worker, as a state machine. The caller runs the loop:
//! it asks for the next action, performs it (computes a row value, polls, meets
//! the other workers at the end of an iteration), and reports back.
use vstd::prelude::*;
use crate::history::{History, gauss_seidel_ready, jacobi_ready, refines};
use crate::partition::{assigned_rows, lemma_assigned_row_bound, row_assignment};

verus! {

/// The relaxation method, which decides the dependency rule of a row update.
#[derive(Clone, Copy, PartialEq, Eq, Debug, Structural)]
pub enum Method {
    Jacobi,
    GaussSeidel,
}

/// What a worker does next.
#[derive(Clone, Copy, PartialEq, Eq, Debug, Structural)]
pub enum Action {
    /// Compute the value of `row` for `iteration` and record it.
    Compute { iteration: usize, row: usize },
    /// A dependency of the next row is still unknown: check again.
    Wait,
    /// All owned rows of `iteration` are written: meet the other workers,
    /// then report whether the solve has converged.
    Synchronize { iteration: usize },
    /// Nothing is left to do.
    Finish,
}

/// Whether the cells that row `i` of iteration `k` reads under `method` hold values.
pub open spec fn dependency_ready<T>(method: Method, h: Seq<Seq<Option<T>>>, k: int, i: int) -> bool {
    match method {
        Method::Jacobi => jacobi_ready(h, k),
        Method::GaussSeidel => gauss_seidel_ready(h, k, i),
    }
}

/// The abstract state of a worker.
pub struct WorkerState {
    pub method: Method,
    pub width: nat,
    pub iterations: nat,
    pub rows: Seq<usize>,
    pub iteration: nat,
    pub position: nat,
    pub finished: bool,
}

impl WorkerState {
    /// Well-formed: iterations count from 1, the position lies within the
    /// owned rows, and the owned rows are rows of the system in increasing order.
    pub open spec fn wf(self) -> bool {
        &&& self.iteration >= 1
        &&& self.position <= self.rows.len()
        &&& forall|m: int| 0 <= m < self.rows.len() ==> (#[trigger] self.rows[m]) < self.width
        &&& forall|m1: int, m2: int|
            0 <= m1 < m2 < self.rows.len() ==> #[trigger] self.rows[m1] < #[trigger] self.rows[m2]
    }

    /// The cells of this worker's rows that hold values in `h` are exactly the
    /// ones it has recorded: all of its rows in the iterations before the
    /// current one, and the rows before `position` in the current one.
    pub open spec fn records_match<T>(self, h: Seq<Seq<Option<T>>>) -> bool {
        forall|k: int, m: int|
            1 <= k < h.len() && 0 <= m < self.rows.len() ==> (#[trigger] h[k][self.rows[m] as int]).is_some() == (k
                < self.iteration || (k == self.iteration && m < self.position))
    }

    /// Whether the worker still has an iteration to work on.
    pub open spec fn active(self) -> bool {
        !self.finished && self.iteration < self.iterations
    }

    /// The action a worker in this state takes on the history `h`.
    pub open spec fn next_action<T>(self, h: Seq<Seq<Option<T>>>) -> Action {
        if !self.active() {
            Action::Finish
        } else if self.position < self.rows.len() {
            let row = self.rows[self.position as int];
            if dependency_ready(self.method, h, self.iteration as int, row as int) {
                Action::Compute { iteration: self.iteration as usize, row }
            } else {
                Action::Wait
            }
        } else {
            Action::Synchronize { iteration: self.iteration as usize }
        }
    }
}

pub struct Worker {
    method: Method,
    width: usize,
    iterations: usize,
    rows: Vec<usize>,
    iteration: usize,
    position: usize,
    finished: bool,
}

impl View for Worker {
    type V = WorkerState;

    closed spec fn view(&self) -> WorkerState {
        WorkerState {
            method: self.method,
            width: self.width as nat,
            iterations: self.iterations as nat,
            rows: self.rows@,
            iteration: self.iteration as nat,
            position: self.position as nat,
            finished: self.finished,
        }
    }
}

impl Worker {
    /// Worker `thread_id` of `thread_count` on a system of `width` rows, with a
    /// history of `iterations` rows: it owns the strided rows of `thread_id` and
    /// starts at iteration 1.
    pub fn new(method: Method, thread_id: usize, thread_count: usize, width: usize, iterations: usize) -> (r: Self)
        requires
            thread_count > 0,
        ensures
            r@.wf(),
            r@.method == method,
            r@.width == width,
            r@.iterations == iterations,
            r@.rows.map_values(|row: usize| row as int) == assigned_rows(thread_id as int, thread_count as int, width as int),
            r@.iteration == 1,
            r@.position == 0,
            !r@.finished,
    {
        let rows = row_assignment(thread_id, thread_count, width);
        let r = Worker { method, width, iterations, rows, iteration: 1, position: 0, finished: false };
        assert forall|m1: int, m2: int| 0 <= m1 < m2 < r@.rows.len() implies #[trigger] r@.rows[m1]
            < #[trigger] r@.rows[m2] by {
            assert(m1 * thread_count < m2 * thread_count) by (nonlinear_arith)
                requires
                    m1 < m2,
                    thread_count > 0,
            ;
        }
        assert(r@.rows.map_values(|row: usize| row as int) =~= assigned_rows(thread_id as int, thread_count as int, width as int));
        assert forall|m: int| 0 <= m < r@.rows.len() implies (#[trigger] r@.rows[m]) < width by {
            assert(r@.rows.map_values(|row: usize| row as int)[m] == assigned_rows(thread_id as int, thread_count as int, width as int)[m]);
            lemma_assigned_row_bound(thread_id as int, thread_count as int, width as int, m);
        }
        r
    }

    /// The action to take now, given the current state of the shared history.
    pub fn next_action<T: Copy>(&self, h: &History<T>) -> (r: Action)
        requires
            self@.wf(),
            h.wf(),
            h.spec_width() == self@.width,
            h@.len() == self@.iterations,
        ensures
            r == self@.next_action(h@),
    {
        if self.finished || self.iteration >= self.iterations {
            return Action::Finish;
        }
        if self.position < self.rows.len() {
            let row = self.rows[self.position];
            let ready = match self.method {
                Method::Jacobi => h.is_resolved(self.iteration - 1),
                Method::GaussSeidel => h.are_all_needed_results_available(self.iteration, row),
            };
            if ready {
                Action::Compute { iteration: self.iteration, row }
            } else {
                Action::Wait
            }
        } else {
            Action::Synchronize { iteration: self.iteration }
        }
    }

    /// Records `value` as the row of the pending `Compute` action and moves on
    /// to the next owned row. Reports whether the cell was still unknown; a
    /// cell that already holds a value keeps it.
    pub fn record<T: Copy>(&mut self, h: &mut History<T>, value: T) -> (r: bool)
        requires
            old(self)@.wf(),
            old(h).wf(),
            old(h).spec_width() == old(self)@.width,
            old(h)@.len() == old(self)@.iterations,
            old(self)@.next_action(old(h)@) is Compute,
        ensures
            final(self)@ == (WorkerState { position: old(self)@.position + 1, ..old(self)@ }),
            final(h).wf(),
            final(h).spec_width() == old(h).spec_width(),
            ({
                let k = old(self)@.iteration as int;
                let i = old(self)@.rows[old(self)@.position as int] as int;
                &&& r == old(h)@[k][i].is_none()
                &&& r ==> final(h)@ == old(h)@.update(k, old(h)@[k].update(i, Some(value)))
                &&& !r ==> final(h)@ == old(h)@
            }),
            refines(old(h)@, final(h)@),
    {
        assert(self.position < self.rows.len());
        let row = self.rows[self.position];
        let written = h.set(self.iteration, row, value);
        self.position = self.position + 1;
        written
    }

    /// Ends the current iteration after the rendezvous: stops when `converged`,
    /// else moves to the first owned row of the next iteration.
    pub fn complete_iteration(&mut self, converged: bool)
        requires
            old(self)@.wf(),
            old(self)@.active(),
            old(self)@.position == old(self)@.rows.len(),
        ensures
            final(self)@.wf(),
            converged ==> final(self)@ == (WorkerState { finished: true, ..old(self)@ }),
            !converged ==> final(self)@ == (WorkerState {
                iteration: old(self)@.iteration + 1,
                position: 0,
                ..old(self)@
            }),
    {
        if converged {
            self.finished = true;
        } else {
            self.iteration = self.iteration + 1;
            self.position = 0;
        }
    }
}

/// A worker that owns no row never waits on the history and never computes:
/// while active it only meets the other workers, once per iteration, so it
/// cannot hold up a rendezvous or a poll.
pub proof fn lemma_rowless_worker<T>(w: WorkerState, h: Seq<Seq<Option<T>>>)
    requires
        w.wf(),
        w.rows.len() == 0,
    ensures
        w.next_action(h) == (if w.active() {
            Action::Synchronize { iteration: w.iteration as usize }
        } else {
            Action::Finish
        }),
{
}

/// Whether every worker has stopped, given each worker's "still working" flag.
pub fn are_computations_ended(threads_status: &Vec<bool>) -> (r: bool)
    ensures
        r == forall|i: int| 0 <= i < threads_status@.len() ==> !(#[trigger] threads_status@[i]),
{
    for i in 0..threads_status.len()
        invariant
            forall|q: int| 0 <= q < i ==> !(#[trigger] threads_status@[q]),
    {
        if threads_status[i] {
            return false;
        }
    }
    true
}

} // verus!
