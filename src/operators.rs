//! Operator decomposition: the parts of the coefficient matrix that the
//! relaxation updates read. The splits into strictly lower and strictly upper
//! parts only move entries; the inverse diagonal and the relaxation matrices
//! apply the arithmetic that the caller supplies.
use vstd::prelude::*;

verus! {

/// The rows of a matrix as sequences.
pub open spec fn rows_of<T>(a: Seq<Vec<T>>) -> Seq<Seq<T>> {
    a.map_values(|row: Vec<T>| row@)
}

/// `a` has as many entries in every row as it has rows.
pub open spec fn is_square_matrix<T>(a: Seq<Seq<T>>) -> bool {
    forall|i: int| 0 <= i < a.len() ==> (#[trigger] a[i]).len() == a.len()
}

/// The strictly lower part of `a`: `a[i][j]` where `i > j`, `zero` elsewhere.
pub open spec fn lower_part<T>(a: Seq<Seq<T>>, zero: T) -> Seq<Seq<T>> {
    Seq::new(a.len(), |i: int| Seq::new(a.len(), |j: int| if i > j { a[i][j] } else { zero }))
}

/// The strictly upper part of `a`: `a[i][j]` where `i < j`, `zero` elsewhere.
pub open spec fn upper_part<T>(a: Seq<Seq<T>>, zero: T) -> Seq<Seq<T>> {
    Seq::new(a.len(), |i: int| Seq::new(a.len(), |j: int| if i < j { a[i][j] } else { zero }))
}

/// `n` is the inverse diagonal of `a` under `recip`.
pub open spec fn is_inverse_diagonal<T, F: Fn(T) -> T>(a: Seq<Seq<T>>, recip: F, n: Seq<T>) -> bool {
    &&& n.len() == a.len()
    &&& forall|i: int| 0 <= i < a.len() ==> recip.ensures((a[i][i],), #[trigger] n[i])
}

/// `m` is the Jacobi relaxation matrix of `a` and `n` under `scale`.
pub open spec fn is_relaxation_matrix<T, F: Fn(T, T) -> T>(
    a: Seq<Seq<T>>,
    n: Seq<T>,
    zero: T,
    scale: F,
    m: Seq<Seq<T>>,
) -> bool {
    &&& m.len() == a.len()
    &&& forall|i: int| 0 <= i < a.len() ==> (#[trigger] m[i]).len() == a.len()
    &&& forall|i: int, j: int|
        0 <= i < a.len() && 0 <= j < a.len() ==> (if i == j {
            (#[trigger] m[i][j]) == zero
        } else {
            scale.ensures((a[i][j], n[i]), m[i][j])
        })
}

/// `p` is the product of the diagonal matrix with diagonal `d` and `m` under `times`.
pub open spec fn is_diagonal_product<T, F: Fn(T, T) -> T>(d: Seq<T>, m: Seq<Seq<T>>, times: F, p: Seq<Seq<T>>) -> bool {
    &&& p.len() == m.len()
    &&& forall|i: int| 0 <= i < m.len() ==> (#[trigger] p[i]).len() == m.len()
    &&& forall|i: int, j: int|
        0 <= i < m.len() && 0 <= j < m.len() ==> times.ensures((d[i], m[i][j]), #[trigger] p[i][j])
}

/// `f` gives one result for each argument.
pub open spec fn is_functional1<T, F: Fn(T) -> T>(f: F) -> bool {
    forall|x: T, y: T, z: T| #[trigger] f.ensures((x,), y) && #[trigger] f.ensures((x,), z) ==> y == z
}

/// `f` gives one result for each pair of arguments.
pub open spec fn is_functional2<T, F: Fn(T, T) -> T>(f: F) -> bool {
    forall|x: T, w: T, y: T, z: T|
        #[trigger] f.ensures((x, w), y) && #[trigger] f.ensures((x, w), z) ==> y == z
}

/// Whether `a` is square.
pub fn is_square<T>(a: &Vec<Vec<T>>) -> (r: bool)
    ensures
        r == is_square_matrix(rows_of(a@)),
{
    let n = a.len();
    for i in 0..n
        invariant
            n == a@.len(),
            forall|q: int| 0 <= q < i ==> (#[trigger] rows_of(a@)[q]).len() == n,
    {
        if a[i].len() != n {
            assert(rows_of(a@)[i as int].len() != n);
            return false;
        }
    }
    true
}

/// Selects, for every position of the square matrix `a`, either its entry
/// (where `keep_lower` and `i > j`, or where not `keep_lower` and `i < j`) or `zero`.
fn triangular_part<T: Copy>(a: &Vec<Vec<T>>, zero: T, keep_lower: bool) -> (r: Vec<Vec<T>>)
    requires
        is_square_matrix(rows_of(a@)),
    ensures
        keep_lower ==> rows_of(r@) == lower_part(rows_of(a@), zero),
        !keep_lower ==> rows_of(r@) == upper_part(rows_of(a@), zero),
{
    let n = a.len();
    let ghost m = rows_of(a@);
    let mut part: Vec<Vec<T>> = Vec::new();
    for i in 0..n
        invariant
            n == a@.len(),
            m == rows_of(a@),
            is_square_matrix(m),
            part@.len() == i,
            forall|p: int| 0 <= p < i ==> (#[trigger] rows_of(part@)[p]) == (if keep_lower {
                lower_part(m, zero)[p]
            } else {
                upper_part(m, zero)[p]
            }),
    {
        assert(m[i as int] == a@[i as int]@);
        let mut row: Vec<T> = Vec::new();
        for j in 0..n
            invariant
                n == a@.len(),
                m == rows_of(a@),
                is_square_matrix(m),
                m[i as int] == a@[i as int]@,
                i < n,
                row@.len() == j,
                forall|q: int| 0 <= q < j ==> (#[trigger] row@[q]) == (if (keep_lower && i > q) || (!keep_lower && i < q) {
                    m[i as int][q]
                } else {
                    zero
                }),
        {
            if (keep_lower && i > j) || (!keep_lower && i < j) {
                row.push(a[i][j]);
            } else {
                row.push(zero);
            }
        }
        proof {
            if keep_lower {
                assert(row@ =~= lower_part(m, zero)[i as int]);
            } else {
                assert(row@ =~= upper_part(m, zero)[i as int]);
            }
        }
        let ghost before = part@;
        part.push(row);
        assert forall|p: int| 0 <= p <= i implies (#[trigger] rows_of(part@)[p]) == (if keep_lower {
            lower_part(m, zero)[p]
        } else {
            upper_part(m, zero)[p]
        }) by {
            if p < i {
                assert(part@[p] == before[p]);
                assert(rows_of(before)[p] == before[p]@);
            }
        }
    }
    proof {
        if keep_lower {
            assert(rows_of(part@) =~= lower_part(m, zero));
        } else {
            assert(rows_of(part@) =~= upper_part(m, zero));
        }
    }
    part
}

/// The strictly lower part L of the square matrix `a`, with `zero` on and above the diagonal.
pub fn prepare_l_matrix<T: Copy>(a: &Vec<Vec<T>>, zero: T) -> (r: Vec<Vec<T>>)
    requires
        is_square_matrix(rows_of(a@)),
    ensures
        rows_of(r@) == lower_part(rows_of(a@), zero),
{
    triangular_part(a, zero, true)
}

/// The strictly upper part U of the square matrix `a`, with `zero` on and below the diagonal.
pub fn prepare_u_matrix<T: Copy>(a: &Vec<Vec<T>>, zero: T) -> (r: Vec<Vec<T>>)
    requires
        is_square_matrix(rows_of(a@)),
    ensures
        rows_of(r@) == upper_part(rows_of(a@), zero),
{
    triangular_part(a, zero, false)
}

/// The inverse diagonal N of the square matrix `a`: `recip` applied to each
/// diagonal entry, in row order.
pub fn prepare_n_vector<T: Copy, F: Fn(T) -> T>(a: &Vec<Vec<T>>, recip: F) -> (r: Vec<T>)
    requires
        is_square_matrix(rows_of(a@)),
        forall|x: T| recip.requires((x,)),
    ensures
        is_inverse_diagonal(rows_of(a@), recip, r@),
{
    let n = a.len();
    let mut inverse: Vec<T> = Vec::new();
    for i in 0..n
        invariant
            n == a@.len(),
            is_square_matrix(rows_of(a@)),
            forall|x: T| recip.requires((x,)),
            inverse@.len() == i,
            forall|q: int| 0 <= q < i ==> recip.ensures((a@[q]@[q],), #[trigger] inverse@[q]),
    {
        assert(rows_of(a@)[i as int].len() == n);
        let d = recip(a[i][i]);
        inverse.push(d);
    }
    assert forall|i: int| 0 <= i < a@.len() implies recip.ensures((rows_of(a@)[i][i],), #[trigger] inverse@[i]) by {
        assert(rows_of(a@)[i] == a@[i]@);
    }
    inverse
}

/// The Jacobi relaxation matrix M of the square matrix `a` with inverse
/// diagonal `n`: `zero` on the diagonal and `scale(a[i][j], n[i])` elsewhere
/// (the negated product, with the caller's arithmetic).
pub fn prepare_m_matrix<T: Copy, F: Fn(T, T) -> T>(a: &Vec<Vec<T>>, n: &Vec<T>, zero: T, scale: F) -> (r: Vec<Vec<T>>)
    requires
        is_square_matrix(rows_of(a@)),
        n@.len() == a@.len(),
        forall|x: T, y: T| scale.requires((x, y)),
    ensures
        is_relaxation_matrix(rows_of(a@), n@, zero, scale, rows_of(r@)),
{
    let size = a.len();
    let mut m: Vec<Vec<T>> = Vec::new();
    for i in 0..size
        invariant
            size == a@.len(),
            n@.len() == size,
            is_square_matrix(rows_of(a@)),
            forall|x: T, y: T| scale.requires((x, y)),
            m@.len() == i,
            forall|p: int| 0 <= p < i ==> (#[trigger] m@[p])@.len() == size,
            forall|p: int, j: int|
                0 <= p < i && 0 <= j < size ==> (if p == j {
                    (#[trigger] m@[p]@[j]) == zero
                } else {
                    scale.ensures((a@[p]@[j], n@[p]), m@[p]@[j])
                }),
    {
        assert(rows_of(a@)[i as int].len() == size);
        let mut row: Vec<T> = Vec::new();
        for j in 0..size
            invariant
                size == a@.len(),
                n@.len() == size,
                i < size,
                a@[i as int]@.len() == size,
                forall|x: T, y: T| scale.requires((x, y)),
                row@.len() == j,
                forall|q: int|
                    0 <= q < j ==> (if i == q {
                        (#[trigger] row@[q]) == zero
                    } else {
                        scale.ensures((a@[i as int]@[q], n@[i as int]), row@[q])
                    }),
        {
            if i == j {
                row.push(zero);
            } else {
                let v = scale(a[i][j], n[i]);
                row.push(v);
            }
        }
        m.push(row);
    }
    assert forall|i: int, j: int| 0 <= i < a@.len() && 0 <= j < a@.len() implies (if i == j {
        (#[trigger] rows_of(m@)[i][j]) == zero
    } else {
        scale.ensures((rows_of(a@)[i][j], n@[i]), rows_of(m@)[i][j])
    }) by {
        assert(rows_of(a@)[i] == a@[i]@);
        assert(rows_of(m@)[i] == m@[i]@);
    }
    m
}

/// The product of the diagonal matrix with diagonal `d` and the square matrix
/// `m`: row `i` of `m` with every entry `x` replaced by `times(d[i], x)`.
pub fn multiply_by_diagonal<T: Copy, F: Fn(T, T) -> T>(d: &Vec<T>, m: &Vec<Vec<T>>, times: F) -> (r: Vec<Vec<T>>)
    requires
        is_square_matrix(rows_of(m@)),
        d@.len() == m@.len(),
        forall|x: T, y: T| times.requires((x, y)),
    ensures
        is_diagonal_product(d@, rows_of(m@), times, rows_of(r@)),
{
    let size = m.len();
    let mut product: Vec<Vec<T>> = Vec::new();
    for i in 0..size
        invariant
            size == m@.len(),
            d@.len() == size,
            is_square_matrix(rows_of(m@)),
            forall|x: T, y: T| times.requires((x, y)),
            product@.len() == i,
            forall|p: int| 0 <= p < i ==> (#[trigger] product@[p])@.len() == size,
            forall|p: int, j: int|
                0 <= p < i && 0 <= j < size ==> times.ensures((d@[p], m@[p]@[j]), #[trigger] product@[p]@[j]),
    {
        assert(rows_of(m@)[i as int].len() == size);
        let mut row: Vec<T> = Vec::new();
        for j in 0..size
            invariant
                size == m@.len(),
                d@.len() == size,
                i < size,
                m@[i as int]@.len() == size,
                forall|x: T, y: T| times.requires((x, y)),
                row@.len() == j,
                forall|q: int| 0 <= q < j ==> times.ensures((d@[i as int], m@[i as int]@[q]), #[trigger] row@[q]),
        {
            let v = times(d[i], m[i][j]);
            row.push(v);
        }
        product.push(row);
    }
    assert forall|i: int, j: int| 0 <= i < m@.len() && 0 <= j < m@.len() implies times.ensures(
        (d@[i], rows_of(m@)[i][j]),
        #[trigger] rows_of(product@)[i][j],
    ) by {
        assert(rows_of(m@)[i] == m@[i]@);
        assert(rows_of(product@)[i] == product@[i]@);
    }
    product
}

/// Decomposition is idempotent: run twice on the same matrix with the same
/// arithmetic (each operation giving one result for each argument), it yields
/// identical operators: the inverse diagonal, the relaxation matrix, and the
/// products of the inverse diagonal with the strictly lower and upper parts
/// (which are themselves functions of the matrix alone).
pub proof fn lemma_decomposition_idempotent<T, R: Fn(T) -> T, S: Fn(T, T) -> T, P: Fn(T, T) -> T>(
    a: Seq<Seq<T>>,
    zero: T,
    recip: R,
    scale: S,
    times: P,
    n1: Seq<T>,
    n2: Seq<T>,
    m1: Seq<Seq<T>>,
    m2: Seq<Seq<T>>,
    nl1: Seq<Seq<T>>,
    nl2: Seq<Seq<T>>,
    nu1: Seq<Seq<T>>,
    nu2: Seq<Seq<T>>,
)
    requires
        is_square_matrix(a),
        is_functional1(recip),
        is_functional2(scale),
        is_functional2(times),
        is_inverse_diagonal(a, recip, n1),
        is_inverse_diagonal(a, recip, n2),
        is_relaxation_matrix(a, n1, zero, scale, m1),
        is_relaxation_matrix(a, n2, zero, scale, m2),
        is_diagonal_product(n1, lower_part(a, zero), times, nl1),
        is_diagonal_product(n2, lower_part(a, zero), times, nl2),
        is_diagonal_product(n1, upper_part(a, zero), times, nu1),
        is_diagonal_product(n2, upper_part(a, zero), times, nu2),
    ensures
        n1 == n2,
        m1 == m2,
        nl1 == nl2,
        nu1 == nu2,
{
    assert forall|i: int| 0 <= i < a.len() implies n1[i] == n2[i] by {
        assert(recip.ensures((a[i][i],), n1[i]));
        assert(recip.ensures((a[i][i],), n2[i]));
    }
    assert(n1 =~= n2);
    assert forall|i: int| 0 <= i < a.len() implies m1[i] =~= m2[i] by {
        assert forall|j: int| 0 <= j < a.len() implies m1[i][j] == m2[i][j] by {
            if i != j {
                assert(scale.ensures((a[i][j], n1[i]), m1[i][j]));
                assert(scale.ensures((a[i][j], n1[i]), m2[i][j]));
            }
        }
    }
    assert(m1 =~= m2);
    let l = lower_part(a, zero);
    let u = upper_part(a, zero);
    assert forall|i: int| 0 <= i < a.len() implies nl1[i] =~= nl2[i] && nu1[i] =~= nu2[i] by {
        assert forall|j: int| 0 <= j < a.len() implies nl1[i][j] == nl2[i][j] && nu1[i][j] == nu2[i][j] by {
            assert(times.ensures((n1[i], l[i][j]), nl1[i][j]));
            assert(times.ensures((n1[i], l[i][j]), nl2[i][j]));
            assert(times.ensures((n1[i], u[i][j]), nu1[i][j]));
            assert(times.ensures((n1[i], u[i][j]), nu2[i][j]));
        }
    }
    assert(nl1 =~= nl2);
    assert(nu1 =~= nu2);
}

} // verus!
