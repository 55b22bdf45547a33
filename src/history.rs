//! The shared iteration history: one row of cells per iteration, each cell
//! either still unknown (`None`) or holding the value its owner wrote once.
use vstd::prelude::*;

verus! {

/// Every cell of `row` holds a value.
pub open spec fn resolved<T>(row: Seq<Option<T>>) -> bool {
    forall|i: int| 0 <= i < row.len() ==> (#[trigger] row[i]).is_some()
}

/// The Gauss-Seidel dependency of row `i` at iteration `k`: the cells below `i`
/// in iteration `k`, and the cells above `i` in iteration `k - 1`, hold values.
pub open spec fn gauss_seidel_ready<T>(h: Seq<Seq<Option<T>>>, k: int, i: int) -> bool {
    &&& forall|j: int| 0 <= j < i ==> (#[trigger] h[k][j]).is_some()
    &&& forall|j: int| i < j < h[k - 1].len() ==> (#[trigger] h[k - 1][j]).is_some()
}

/// The Jacobi dependency of iteration `k`: iteration `k - 1` is fully resolved.
pub open spec fn jacobi_ready<T>(h: Seq<Seq<Option<T>>>, k: int) -> bool {
    resolved(h[k - 1])
}

/// `later` is a possible later state of the history `earlier`: the same shape,
/// and every cell that held a value still holds the same value.
pub open spec fn refines<T>(earlier: Seq<Seq<Option<T>>>, later: Seq<Seq<Option<T>>>) -> bool {
    &&& earlier.len() == later.len()
    &&& forall|k: int| 0 <= k < earlier.len() ==> (#[trigger] earlier[k]).len() == later[k].len()
    &&& forall|k: int, i: int|
        0 <= k < earlier.len() && 0 <= i < earlier[k].len() && (#[trigger] earlier[k][i]).is_some()
            ==> later[k][i] == earlier[k][i]
}

/// The values of a fully resolved row.
pub open spec fn values_of<T>(row: Seq<Option<T>>) -> Seq<T> {
    row.map_values(|c: Option<T>| c.unwrap())
}

/// Resolution is monotonic: a history refines itself, and a refinement of a
/// refinement is a refinement, so along any sequence of writes a cell that
/// once held a value never becomes unknown again nor changes its value.
pub proof fn lemma_refines_transitive<T>(
    h1: Seq<Seq<Option<T>>>,
    h2: Seq<Seq<Option<T>>>,
    h3: Seq<Seq<Option<T>>>,
)
    requires
        refines(h1, h2),
        refines(h2, h3),
    ensures
        refines(h1, h1),
        refines(h1, h3),
{
    assert forall|k: int, i: int|
        0 <= k < h1.len() && 0 <= i < h1[k].len() && (#[trigger] h1[k][i]).is_some() implies h3[k][i]
        == h1[k][i] by {
        assert(h2[k][i] == h1[k][i]);
    }
}

/// A satisfied dependency stays satisfied: once a Gauss-Seidel or Jacobi dependency check
/// holds on a history, it holds on every later state of it, which is why a
/// worker may poll the check and then read the cells it names.
pub proof fn lemma_ready_stable<T>(h1: Seq<Seq<Option<T>>>, h2: Seq<Seq<Option<T>>>, k: int, i: int)
    requires
        refines(h1, h2),
        1 <= k < h1.len(),
        0 <= i < h1[k].len(),
    ensures
        gauss_seidel_ready(h1, k, i) ==> gauss_seidel_ready(h2, k, i),
        jacobi_ready(h1, k) ==> jacobi_ready(h2, k),
        resolved(h1[k]) ==> resolved(h2[k]) && values_of(h2[k]) == values_of(h1[k]),
{
    assert(h1[k].len() == h2[k].len());
    assert(h1[k - 1].len() == h2[k - 1].len());
    if gauss_seidel_ready(h1, k, i) {
        assert forall|j: int| 0 <= j < i implies (#[trigger] h2[k][j]).is_some() by {
            assert(h1[k][j].is_some());
        }
        assert forall|j: int| i < j < h2[k - 1].len() implies (#[trigger] h2[k - 1][j]).is_some() by {
            assert(h1[k - 1][j].is_some());
        }
    }
    if resolved(h1[k]) {
        assert forall|j: int| 0 <= j < h2[k].len() implies (#[trigger] h2[k][j]).is_some() by {
            assert(h1[k][j].is_some());
        }
        assert(values_of(h2[k]) =~= values_of(h1[k]));
    }
    if jacobi_ready(h1, k) {
        assert forall|j: int| 0 <= j < h2[k - 1].len() implies (#[trigger] h2[k - 1][j]).is_some() by {
            assert(h1[k - 1][j].is_some());
        }
    }
}

pub struct History<T> {
    width: usize,
    cells: Vec<Vec<Option<T>>>,
}

impl<T> View for History<T> {
    type V = Seq<Seq<Option<T>>>;

    closed spec fn view(&self) -> Seq<Seq<Option<T>>> {
        self.cells@.map_values(|row: Vec<Option<T>>| row@)
    }
}

impl<T: Copy> History<T> {
    /// The number of cells in each iteration row.
    pub closed spec fn spec_width(&self) -> nat {
        self.width as nat
    }

    /// Well-formed: at least the initial row, which is resolved, and every row
    /// has `spec_width()` cells.
    pub open spec fn wf(&self) -> bool {
        &&& self@.len() >= 1
        &&& resolved(self@[0])
        &&& forall|k: int| 0 <= k < self@.len() ==> (#[trigger] self@[k]).len() == self.spec_width()
    }

    /// A history of `iterations` rows: row 0 holds `initial`, every later cell is unknown.
    pub fn new(initial: &Vec<T>, iterations: usize) -> (r: Self)
        requires
            iterations >= 1,
        ensures
            r.wf(),
            r.spec_width() == initial@.len(),
            r@.len() == iterations,
            values_of(r@[0]) == initial@,
            forall|k: int, i: int| 1 <= k < iterations && 0 <= i < initial@.len() ==> (#[trigger] r@[k][i]).is_none(),
    {
        let n = initial.len();
        let mut first: Vec<Option<T>> = Vec::new();
        for i in 0..n
            invariant
                n == initial@.len(),
                first@.len() == i,
                forall|j: int| 0 <= j < i ==> first@[j] == Some(initial@[j]),
        {
            first.push(Some(initial[i]));
        }
        let mut cells: Vec<Vec<Option<T>>> = Vec::new();
        cells.push(first);
        for k in 1..iterations
            invariant
                cells@.len() == k,
                cells@[0]@ == first@,
                first@.len() == n,
                forall|q: int| 1 <= q < k ==> (#[trigger] cells@[q])@.len() == n,
                forall|q: int, i: int| 1 <= q < k && 0 <= i < n ==> (#[trigger] cells@[q]@[i]).is_none(),
        {
            let mut row: Vec<Option<T>> = Vec::new();
            for i in 0..n
                invariant
                    row@.len() == i,
                    forall|j: int| 0 <= j < i ==> (#[trigger] row@[j]).is_none(),
            {
                row.push(None);
            }
            cells.push(row);
        }
        let r = History { width: n, cells };
        assert(values_of(r@[0]) =~= initial@);
        r
    }

    /// The number of iteration rows.
    pub fn iterations(&self) -> (r: usize)
        ensures
            r == self@.len(),
    {
        self.cells.len()
    }

    /// The number of cells in each row.
    pub fn width(&self) -> (r: usize)
        ensures
            r == self.spec_width(),
    {
        self.width
    }

    /// The cell of row `i` at iteration `k`.
    pub fn get(&self, k: usize, i: usize) -> (r: Option<T>)
        requires
            self.wf(),
            k < self@.len(),
            i < self.spec_width(),
        ensures
            r == self@[k as int][i as int],
    {
        assert(self@[k as int] == self.cells@[k as int]@);
        self.cells[k][i]
    }

    /// Writes `v` into the cell of row `i` at iteration `k` if that cell is still
    /// unknown, and reports whether it was; a cell that holds a value is never
    /// rewritten.
    pub fn set(&mut self, k: usize, i: usize, v: T) -> (r: bool)
        requires
            old(self).wf(),
            k < old(self)@.len(),
            i < old(self).spec_width(),
        ensures
            final(self).wf(),
            final(self).spec_width() == old(self).spec_width(),
            r == old(self)@[k as int][i as int].is_none(),
            r ==> final(self)@ == old(self)@.update(k as int, old(self)@[k as int].update(i as int, Some(v))),
            !r ==> final(self)@ == old(self)@,
            refines(old(self)@, final(self)@),
    {
        assert(self@[k as int] == self.cells@[k as int]@);
        if self.cells[k][i].is_some() {
            return false;
        }
        self.cells[k][i] = Some(v);
        assert(self@ =~= old(self)@.update(k as int, old(self)@[k as int].update(i as int, Some(v))));
        true
    }
    /// Whether every cell of iteration `k` holds a value.
    pub fn is_resolved(&self, k: usize) -> (r: bool)
        requires
            self.wf(),
            k < self@.len(),
        ensures
            r == resolved(self@[k as int]),
    {
        assert(self@[k as int] == self.cells@[k as int]@);
        let row = &self.cells[k];
        for i in 0..row.len()
            invariant
                self.wf(),
                k < self@.len(),
                row@ == self@[k as int],
                forall|j: int| 0 <= j < i ==> (#[trigger] row@[j]).is_some(),
        {
            if row[i].is_none() {
                return false;
            }
        }
        true
    }

    /// Whether row `i` may be computed for iteration `k` by Gauss-Seidel: every
    /// lower-indexed cell of iteration `k` and every higher-indexed cell of
    /// iteration `k - 1` holds a value.
    pub fn are_all_needed_results_available(&self, k: usize, i: usize) -> (r: bool)
        requires
            self.wf(),
            1 <= k < self@.len(),
            i < self.spec_width(),
        ensures
            r == gauss_seidel_ready(self@, k as int, i as int),
    {
        assert(self@[k as int] == self.cells@[k as int]@);
        assert(self@[k - 1] == self.cells@[k - 1]@);
        let current = &self.cells[k];
        for j in 0..i
            invariant
                self.wf(),
                1 <= k < self@.len(),
                i < self.spec_width(),
                current@ == self@[k as int],
                current@.len() == self.spec_width(),
                forall|q: int| 0 <= q < j ==> (#[trigger] self@[k as int][q]).is_some(),
        {
            if current[j].is_none() {
                return false;
            }
        }
        let previous = &self.cells[k - 1];
        for j in i + 1..previous.len()
            invariant
                self.wf(),
                1 <= k < self@.len(),
                previous@ == self@[k - 1],
                i + 1 <= j <= previous@.len(),
                forall|q: int| 0 <= q < i ==> (#[trigger] self@[k as int][q]).is_some(),
                forall|q: int| i < q < j ==> (#[trigger] self@[k - 1][q]).is_some(),
        {
            if previous[j].is_none() {
                return false;
            }
        }
        true
    }

    /// The values of iteration `k`, which must be fully resolved.
    pub fn row_values(&self, k: usize) -> (r: Vec<T>)
        requires
            self.wf(),
            k < self@.len(),
            resolved(self@[k as int]),
        ensures
            r@ == values_of(self@[k as int]),
    {
        assert(self@[k as int] == self.cells@[k as int]@);
        let row = &self.cells[k];
        let mut values: Vec<T> = Vec::new();
        for i in 0..row.len()
            invariant
                self.wf(),
                k < self@.len(),
                row@ == self@[k as int],
                resolved(row@),
                values@.len() == i,
                forall|j: int| 0 <= j < i ==> values@[j] == (#[trigger] row@[j]).unwrap(),
        {
            assert(row@[i as int].is_some());
            values.push(row[i].unwrap());
        }
        assert(values@ =~= values_of(self@[k as int]));
        values
    }

    /// The operands of the Gauss-Seidel update of row `i` at iteration `k`:
    /// the values of rows `0..i` from iteration `k`, and the values of rows
    /// `i + 1..n` from iteration `k - 1`.
    pub fn gauss_seidel_operands(&self, k: usize, i: usize) -> (r: (Vec<T>, Vec<T>))
        requires
            self.wf(),
            1 <= k < self@.len(),
            i < self.spec_width(),
            gauss_seidel_ready(self@, k as int, i as int),
        ensures
            r.0@ == values_of(self@[k as int].take(i as int)),
            r.1@ == values_of(self@[k - 1].skip(i + 1)),
    {
        assert(self@[k as int] == self.cells@[k as int]@);
        assert(self@[k - 1] == self.cells@[k - 1]@);
        let current = &self.cells[k];
        let previous = &self.cells[k - 1];
        let mut lower: Vec<T> = Vec::new();
        for j in 0..i
            invariant
                self.wf(),
                1 <= k < self@.len(),
                i < self.spec_width(),
                current@ == self@[k as int],
                current@.len() == self.spec_width(),
                gauss_seidel_ready(self@, k as int, i as int),
                lower@.len() == j,
                forall|q: int| 0 <= q < j ==> lower@[q] == (#[trigger] current@[q]).unwrap(),
        {
            assert(self@[k as int][j as int].is_some());
            lower.push(current[j].unwrap());
        }
        let mut upper: Vec<T> = Vec::new();
        for j in i + 1..previous.len()
            invariant
                self.wf(),
                1 <= k < self@.len(),
                previous@ == self@[k - 1],
                i + 1 <= j <= previous@.len(),
                gauss_seidel_ready(self@, k as int, i as int),
                upper@.len() == j - (i + 1),
                forall|q: int| i + 1 <= q < j ==> upper@[q - (i + 1)] == (#[trigger] previous@[q]).unwrap(),
        {
            assert(self@[k - 1][j as int].is_some());
            upper.push(previous[j].unwrap());
        }
        assert(lower@ =~= values_of(self@[k as int].take(i as int)));
        assert(upper@ =~= values_of(self@[k - 1].skip(i + 1)));
        (lower, upper)
    }

    /// The iteration the solution is taken from: the highest iteration from 1
    /// on that is fully resolved, or 0, the initial guess, when none is.
    pub fn find_results(&self) -> (r: usize)
        requires
            self.wf(),
        ensures
            r < self@.len(),
            r > 0 ==> resolved(self@[r as int]),
            forall|k: int| r < k < self@.len() ==> !resolved(#[trigger] self@[k]),
    {
        let mut k: usize = self.cells.len() - 1;
        while k > 0
            invariant
                self.wf(),
                k < self@.len(),
                forall|q: int| k < q < self@.len() ==> !resolved(#[trigger] self@[q]),
            decreases k,
        {
            if self.is_resolved(k) {
                return k;
            }
            k = k - 1;
        }
        0
    }

    /// The solution handed out after the workers stop: the values of the
    /// iteration that `find_results` selects.
    pub fn select_result(&self) -> (r: Vec<T>)
        requires
            self.wf(),
        ensures
            exists|k: int|
                0 <= k < self@.len() && (k > 0 ==> resolved(self@[k])) && (forall|q: int|
                    k < q < self@.len() ==> !resolved(#[trigger] self@[q])) && r@ == values_of(
                    #[trigger] self@[k],
                ),
    {
        let k = self.find_results();
        self.row_values(k)
    }
}

} // verus!
