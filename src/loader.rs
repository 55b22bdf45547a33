//! Checks on the values handed to the solver: the text layout of a data file
//! (rows on lines, values separated by single spaces), the shape of the
//! right-hand side, the command line and the configuration.
use vstd::prelude::*;
use crate::worker::Method;
use crate::operators::{is_square, is_square_matrix, rows_of};

verus! {

/// The pieces of `s` between occurrences of `sep`: one more piece than there
/// are separators, each possibly empty.
pub open spec fn split(s: Seq<u8>, sep: u8) -> Seq<Seq<u8>>
    decreases s.len(),
{
    if s.len() == 0 {
        seq![Seq::empty()]
    } else {
        let pieces = split(s.drop_last(), sep);
        if s.last() == sep {
            pieces.push(Seq::empty())
        } else {
            pieces.update(pieces.len() - 1, pieces.last().push(s.last()))
        }
    }
}

/// The fields of a data file: its lines split at `'\n'`, each split at `' '`.
pub open spec fn fields(s: Seq<u8>) -> Seq<Seq<Seq<u8>>> {
    split(s, 10u8).map_values(|line: Seq<u8>| split(line, 32u8))
}

/// Line `r` of `f` holds an empty field.
pub open spec fn line_has_empty_field(f: Seq<Seq<Seq<u8>>>, r: int) -> bool {
    exists|c: int| 0 <= c < f[r].len() && (#[trigger] f[r][c]).len() == 0
}

/// Some line of `f` holds an empty field.
pub open spec fn has_empty_field(f: Seq<Seq<Seq<u8>>>) -> bool {
    exists|r: int| 0 <= r < f.len() && line_has_empty_field(f, r)
}

/// The byte sequences of a list of pieces.
pub open spec fn pieces_view(v: Seq<Vec<u8>>) -> Seq<Seq<u8>> {
    v.map_values(|p: Vec<u8>| p@)
}

/// The byte sequences of the fields of each line.
pub open spec fn fields_view(v: Seq<Vec<Vec<u8>>>) -> Seq<Seq<Seq<u8>>> {
    v.map_values(|row: Vec<Vec<u8>>| pieces_view(row@))
}

proof fn lemma_split_nonempty(s: Seq<u8>, sep: u8)
    ensures
        split(s, sep).len() >= 1,
    decreases s.len(),
{
    if s.len() > 0 {
        lemma_split_nonempty(s.drop_last(), sep);
    }
}

/// Splits `s` at every occurrence of `sep`.
pub fn split_on(s: &[u8], sep: u8) -> (r: Vec<Vec<u8>>)
    ensures
        pieces_view(r@) == split(s@, sep),
{
    let mut pieces: Vec<Vec<u8>> = Vec::new();
    let mut current: Vec<u8> = Vec::new();
    assert(s@.take(0) =~= Seq::<u8>::empty());
    assert(pieces_view(pieces@).push(current@) =~= split(s@.take(0), sep));
    for i in 0..s.len()
        invariant
            pieces_view(pieces@).push(current@) == split(s@.take(i as int), sep),
    {
        let ghost before = split(s@.take(i as int), sep);
        assert(s@.take(i + 1).drop_last() =~= s@.take(i as int));
        assert(s@.take(i + 1).last() == s@[i as int]);
        let c = s[i];
        if c == sep {
            pieces.push(current);
            current = Vec::new();
            assert(pieces_view(pieces@).push(current@) =~= before.push(Seq::empty()));
        } else {
            current.push(c);
            assert(pieces_view(pieces@).push(current@) =~= before.update(before.len() - 1, before.last().push(c)));
        }
    }
    assert(s@.take(s@.len() as int) =~= s@);
    let last = current;
    pieces.push(last);
    pieces
}

/// Why the text of a data file was refused.
#[derive(Clone, Copy, PartialEq, Eq, Debug, Structural)]
pub enum ReadError {
    /// The file holds nothing.
    Empty,
    /// Line `line` (counted from 0) holds an empty field: two spaces in a
    /// row, a space at either end, or an empty line.
    EmptyField { line: usize },
}

/// Splits the text of a data file into its fields, line by line. Refuses an
/// empty text and a text with an empty field anywhere.
pub fn read_fields(text: &[u8]) -> (r: Result<Vec<Vec<Vec<u8>>>, ReadError>)
    ensures
        text@.len() == 0 <==> r == Err::<Vec<Vec<Vec<u8>>>, ReadError>(ReadError::Empty),
        r is Ok <==> text@.len() > 0 && !has_empty_field(fields(text@)),
        r matches Ok(f) ==> fields_view(f@) == fields(text@),
        r matches Err(ReadError::EmptyField { line }) ==> line < fields(text@).len(),
        r matches Err(ReadError::EmptyField { line }) ==> line_has_empty_field(fields(text@), line as int),
        r matches Err(ReadError::EmptyField { line }) ==> forall|q: int|
            0 <= q < line ==> !line_has_empty_field(fields(text@), q),
{
    if text.len() == 0 {
        return Err(ReadError::Empty);
    }
    let lines = split_on(text, 10u8);
    let ghost f = fields(text@);
    let mut rows: Vec<Vec<Vec<u8>>> = Vec::new();
    for r in 0..lines.len()
        invariant
            text@.len() > 0,
            f == fields(text@),
            f.len() == lines@.len(),
            pieces_view(lines@) == split(text@, 10u8),
            rows@.len() == r,
            forall|q: int| 0 <= q < r ==> pieces_view((#[trigger] rows@[q])@) == f[q],
            forall|q: int, c: int| 0 <= q < r && 0 <= c < f[q].len() ==> (#[trigger] f[q][c]).len() > 0,
            forall|q: int| 0 <= q < r ==> !line_has_empty_field(f, q),
    {
        assert(pieces_view(lines@)[r as int] == lines@[r as int]@);
        let row = split_on(lines[r].as_slice(), 32u8);
        assert(pieces_view(row@) == f[r as int]);
        for c in 0..row.len()
            invariant
                text@.len() > 0,
                f == fields(text@),
                f.len() == lines@.len(),
                r < lines@.len(),
                forall|q: int, k: int| 0 <= q < r && 0 <= k < f[q].len() ==> (#[trigger] f[q][k]).len() > 0,
                forall|q: int| 0 <= q < r ==> !line_has_empty_field(f, q),
                pieces_view(row@) == f[r as int],
                forall|q: int| 0 <= q < c ==> (#[trigger] f[r as int][q]).len() > 0,
        {
            assert(pieces_view(row@)[c as int] == row@[c as int]@);
            if row[c].len() == 0 {
                assert(line_has_empty_field(fields(text@), r as int));
                assert(has_empty_field(f));
                return Err(ReadError::EmptyField { line: r });
            }
        }
        rows.push(row);
        assert(!line_has_empty_field(f, r as int));
    }
    assert(fields_view(rows@) =~= f);
    Ok(rows)
}

/// Whether `y` is a right-hand side for a system of `equations` rows: one
/// line of exactly one value per equation.
pub fn validate_results_vector<T>(equations: usize, y: &Vec<Vec<T>>) -> (r: bool)
    ensures
        r == (y@.len() == equations && forall|i: int| 0 <= i < y@.len() ==> (#[trigger] y@[i])@.len() == 1),
{
    if y.len() != equations {
        return false;
    }
    for i in 0..y.len()
        invariant
            forall|q: int| 0 <= q < i ==> (#[trigger] y@[q])@.len() == 1,
    {
        if y[i].len() != 1 {
            return false;
        }
    }
    true
}

/// Whether `a` is a coefficient matrix the solver accepts: square, with no
/// diagonal entry that `is_zero` reports as zero. The check runs before any
/// worker starts.
pub fn validate_coefficients_matrix<T: Copy, F: Fn(T) -> bool>(a: &Vec<Vec<T>>, is_zero: F) -> (r: bool)
    requires
        forall|x: T| is_zero.requires((x,)),
    ensures
        r ==> is_square_matrix(rows_of(a@)) && forall|i: int|
            0 <= i < a@.len() ==> is_zero.ensures((#[trigger] rows_of(a@)[i][i],), false),
        !r ==> !is_square_matrix(rows_of(a@)) || exists|i: int|
            0 <= i < a@.len() && is_zero.ensures((#[trigger] rows_of(a@)[i][i],), true),
{
    if !is_square(a) {
        return false;
    }
    for i in 0..a.len()
        invariant
            is_square_matrix(rows_of(a@)),
            forall|x: T| is_zero.requires((x,)),
            forall|q: int| 0 <= q < i ==> is_zero.ensures((#[trigger] rows_of(a@)[q][q],), false),
    {
        assert(rows_of(a@)[i as int] == a@[i as int]@);
        let zero = is_zero(a[i][i]);
        if zero {
            return false;
        }
    }
    true
}

/// The number of command-line words the program takes: its own name and six arguments.
pub const ARGUMENT_COUNT: usize = 7;

/// How the number of command-line words compares with the expected count.
#[derive(Clone, Copy, PartialEq, Eq, Debug, Structural)]
pub enum ArgumentCount {
    TooFew,
    TooMany,
    Expected,
}

/// Compares the number of command-line words (the program's name included)
/// with `ARGUMENT_COUNT`.
pub fn validate_input(count: usize) -> (r: ArgumentCount)
    ensures
        count < ARGUMENT_COUNT <==> r == ArgumentCount::TooFew,
        count > ARGUMENT_COUNT <==> r == ArgumentCount::TooMany,
        count == ARGUMENT_COUNT <==> r == ArgumentCount::Expected,
{
    if count < ARGUMENT_COUNT {
        ArgumentCount::TooFew
    } else if count > ARGUMENT_COUNT {
        ArgumentCount::TooMany
    } else {
        ArgumentCount::Expected
    }
}

/// The largest number of worker threads a solve may use.
pub const MAX_THREADS: usize = 4;

/// Whether `threads` workers is an accepted configuration: 1 to `MAX_THREADS`.
pub fn is_valid_thread_count(threads: usize) -> (r: bool)
    ensures
        r == (1 <= threads <= MAX_THREADS),
{
    1 <= threads && threads <= MAX_THREADS
}

/// The method named on the command line: "jacobi" or "gauss".
pub open spec fn method_named(name: Seq<u8>) -> Option<Method> {
    if name == seq![106u8, 97u8, 99u8, 111u8, 98u8, 105u8] {
        Some(Method::Jacobi)
    } else if name == seq![103u8, 97u8, 117u8, 115u8, 115u8] {
        Some(Method::GaussSeidel)
    } else {
        None
    }
}

fn bytes_equal(a: &[u8], b: &[u8]) -> (r: bool)
    ensures
        r == (a@ == b@),
{
    if a.len() != b.len() {
        return false;
    }
    for i in 0..a.len()
        invariant
            a@.len() == b@.len(),
            forall|q: int| 0 <= q < i ==> a@[q] == b@[q],
    {
        if a[i] != b[i] {
            return false;
        }
    }
    assert(a@ =~= b@);
    true
}

/// Reads the method's name, given as bytes.
pub fn parse_method(name: &[u8]) -> (r: Option<Method>)
    ensures
        r == method_named(name@),
{
    let jacobi: [u8; 6] = [106u8, 97u8, 99u8, 111u8, 98u8, 105u8];
    let gauss: [u8; 5] = [103u8, 97u8, 117u8, 115u8, 115u8];
    assert(jacobi@ =~= seq![106u8, 97u8, 99u8, 111u8, 98u8, 105u8]);
    assert(gauss@ =~= seq![103u8, 97u8, 117u8, 115u8, 115u8]);
    if bytes_equal(name, jacobi.as_slice()) {
        Some(Method::Jacobi)
    } else if bytes_equal(name, gauss.as_slice()) {
        Some(Method::GaussSeidel)
    } else {
        None
    }
}

} // verus!
