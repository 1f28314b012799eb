//! Dense matrices, stored row by row, and their product.

use crate::text::{append_decimal, append_digits, decimal, digits, fits_i64};
use vstd::prelude::*;
use vstd::string::StringExecFns;

verus! {

/// A matrix of `row` rows and `col` columns whose entries lie row after row
/// in `data`.
pub struct Matrix<T> {
    data: Vec<T>,
    row: usize,
    col: usize,
}

/// Why two matrices could not be multiplied.
#[derive(Clone, Copy, Debug, PartialEq, Eq, Structural)]
pub enum MatrixError {
    /// The left matrix has not as many columns as the right one has rows.
    SizeMismatch,
}

impl MatrixError {
    /// The error in words.
    pub fn message(&self) -> (s: String)
        ensures
            s@ == "Matrix size mismatch"@,
    {
        "Matrix size mismatch".to_string()
    }
}

impl<T> Matrix<T> {
    /// The number of rows.
    pub closed spec fn spec_row(&self) -> nat {
        self.row as nat
    }

    /// The number of columns.
    pub closed spec fn spec_col(&self) -> nat {
        self.col as nat
    }

    /// The entries, row after row.
    pub closed spec fn spec_data(&self) -> Seq<T> {
        self.data@
    }

    /// Whether `data` holds an entry for every cell.
    pub open spec fn complete(&self) -> bool {
        self.spec_row() * self.spec_col() <= self.spec_data().len()
    }

    /// The entry in row `i` and column `j`.
    pub open spec fn at(&self, i: int, j: int) -> T
        recommends
            0 <= i < self.spec_row(),
            0 <= j < self.spec_col(),
            self.complete(),
    {
        self.spec_data()[i * self.spec_col() + j]
    }

    /// A matrix of `row` rows and `col` columns over `data`, which is taken as
    /// it is, whether or not it holds an entry for every cell.
    pub fn new(data: Vec<T>, row: usize, col: usize) -> (m: Self)
        ensures
            m.spec_data() == data@,
            m.spec_row() == row,
            m.spec_col() == col,
    {
        Matrix { data, row, col }
    }

    /// Whether `data` holds an entry for every cell.
    pub fn is_complete(&self) -> (ok: bool)
        ensures
            ok == self.complete(),
    {
        let len: usize = self.data.len();
        match self.row.checked_mul(self.col) {
            Some(cells) => cells <= len,
            None => false,
        }
    }

    /// The number of rows.
    pub fn row(&self) -> (n: usize)
        ensures
            n == self.spec_row(),
    {
        self.row
    }

    /// The number of columns.
    pub fn col(&self) -> (n: usize)
        ensures
            n == self.spec_col(),
    {
        self.col
    }

    /// The entries, row after row.
    pub fn data(&self) -> (d: &Vec<T>)
        ensures
            d@ == self.spec_data(),
    {
        &self.data
    }
}

/// The first `n` entries of row `i` in decimal, a blank after each but the
/// last of the row.
pub open spec fn row_text(m: &Matrix<i64>, i: int, n: int) -> Seq<char>
    decreases n,
{
    if n <= 0 {
        Seq::<char>::empty()
    } else {
        row_text(m, i, n - 1) + decimal(m.at(i, n - 1) as int) + (if n < m.spec_col() {
            seq![' ']
        } else {
            Seq::<char>::empty()
        })
    }
}

/// The first `n` rows, a comma after each but the last of the matrix.
pub open spec fn rows_text(m: &Matrix<i64>, n: int) -> Seq<char>
    decreases n,
{
    if n <= 0 {
        Seq::<char>::empty()
    } else {
        rows_text(m, n - 1) + row_text(m, n - 1, m.spec_col() as int) + (if n < m.spec_row() {
            seq![',']
        } else {
            Seq::<char>::empty()
        })
    }
}

/// The matrix written out: its rows between braces.
pub open spec fn matrix_text(m: &Matrix<i64>) -> Seq<char> {
    seq!['{'] + rows_text(m, m.spec_row() as int) + seq!['}']
}

/// The matrix written out with its size in front.
pub open spec fn matrix_debug_text(m: &Matrix<i64>) -> Seq<char> {
    seq!['M', 'a', 't', 'r', 'i', 'x', '('] + digits(m.spec_row()) + seq!['x'] + digits(
        m.spec_col(),
    ) + seq![',', ' '] + matrix_text(m) + seq![')']
}

impl Matrix<i64> {
    /// Writes the matrix at the end of `out`.
    fn append_to(&self, out: &mut String)
        requires
            self.complete(),
        ensures
            final(out)@ == old(out)@ + matrix_text(self),
    {
        proof {
            reveal_strlit("{");
            reveal_strlit("}");
        }
        let ghost start = out@;
        let len: usize = self.data.len();
        out.append("{");
        let mut i: usize = 0;
        while i < self.row
            invariant
                self.complete(),
                len == self.spec_data().len(),
                0 <= i <= self.row,
                out@ == start + seq!['{'] + rows_text(self, i as int),
            decreases self.row - i,
        {
            let mut j: usize = 0;
            while j < self.col
                invariant
                    self.complete(),
                    len == self.spec_data().len(),
                    0 <= i < self.row,
                    0 <= j <= self.col,
                    out@ == start + seq!['{'] + rows_text(self, i as int) + row_text(
                        self,
                        i as int,
                        j as int,
                    ),
                decreases self.col - j,
            {
                proof {
                    lemma_cell_index(i as int, j as int, self.row as int, self.col as int);
                }
                let ghost head = start + seq!['{'] + rows_text(self, i as int);
                let ghost done = row_text(self, i as int, j as int);
                let ghost entry = decimal(self.at(i as int, j as int) as int);
                append_decimal(out, self.data[i * self.col + j]);
                if j < self.col - 1 {
                    proof {
                        reveal_strlit(" ");
                    }
                    out.append(" ");
                    assert(out@ =~= head + (done + entry + seq![' ']));
                } else {
                    assert(out@ =~= head + (done + entry + Seq::<char>::empty()));
                }
                j += 1;
                assert(row_text(self, i as int, j as int) == done + entry + (if j
                    < self.spec_col() {
                    seq![' ']
                } else {
                    Seq::<char>::empty()
                }));
            }
            let ghost head = start + seq!['{'];
            let ghost done = rows_text(self, i as int);
            let ghost line = row_text(self, i as int, self.spec_col() as int);
            if i < self.row - 1 {
                proof {
                    reveal_strlit(",");
                }
                out.append(",");
                assert(out@ =~= head + (done + line + seq![',']));
            } else {
                assert(out@ =~= head + (done + line + Seq::<char>::empty()));
            }
            i += 1;
            assert(rows_text(self, i as int) == done + line + (if i < self.spec_row() {
                seq![',']
            } else {
                Seq::<char>::empty()
            }));
        }
        out.append("}");
        assert(out@ =~= start + matrix_text(self));
    }

    /// The matrix written out: the entries of a row with blanks between
    /// them, the rows with commas between them, all between braces.
    pub fn to_string(&self) -> (s: String)
        requires
            self.complete(),
        ensures
            s@ == matrix_text(self),
    {
        let mut s = String::new();
        self.append_to(&mut s);
        assert(s@ =~= matrix_text(self));
        s
    }

    /// The matrix written out with its size in front: `Matrix(`, rows, `x`,
    /// columns, a comma and a blank, the matrix as `to_string` gives it, `)`.
    pub fn debug_string(&self) -> (s: String)
        requires
            self.complete(),
        ensures
            s@ == matrix_debug_text(self),
    {
        proof {
            reveal_strlit("Matrix(");
            reveal_strlit("x");
            reveal_strlit(", ");
            reveal_strlit(")");
        }
        let mut s = String::new();
        s.append("Matrix(");
        append_digits(&mut s, self.row as u64);
        s.append("x");
        append_digits(&mut s, self.col as u64);
        s.append(", ");
        self.append_to(&mut s);
        s.append(")");
        assert(s@ =~= matrix_debug_text(self));
        s
    }
}

/// The product of `a`'s entry in row `i`, column `k` and `b`'s entry in row
/// `k`, column `j`.
pub open spec fn term(a: &Matrix<i64>, b: &Matrix<i64>, i: int, j: int, k: int) -> int {
    a.at(i, k) * b.at(k, j)
}

/// The sum of the first `n` terms of the cell in row `i` and column `j` of
/// the product: zero where `n` is zero.
pub open spec fn cell_sum(a: &Matrix<i64>, b: &Matrix<i64>, i: int, j: int, n: int) -> int
    decreases n,
{
    if n <= 0 {
        0
    } else {
        cell_sum(a, b, i, j, n - 1) + term(a, b, i, j, n - 1)
    }
}

/// The entry of the product of `a` and `b` at place `p` of its entries.
pub open spec fn flat_entry(a: &Matrix<i64>, b: &Matrix<i64>, p: int) -> int {
    cell_sum(a, b, p / (b.spec_col() as int), p % (b.spec_col() as int), a.spec_col() as int)
}

/// Whether term `k` of the cell in row `i` and column `j`, and the sum of
/// the cell's terms up to and with it, can be held in an `i64`.
pub open spec fn term_fits(a: &Matrix<i64>, b: &Matrix<i64>, i: int, j: int, k: int) -> bool {
    fits_i64(term(a, b, i, j, k)) && fits_i64(cell_sum(a, b, i, j, k + 1))
}

/// What `multiply` asks of two matrices whose sizes go together: each holds
/// an entry for every cell, the result's cells can be counted, and in every
/// cell of the result each term, and each sum on the way from the first term
/// to the last, can be held in an `i64`.
pub open spec fn can_multiply(a: &Matrix<i64>, b: &Matrix<i64>) -> bool {
    &&& a.complete()
    &&& b.complete()
    &&& a.spec_row() * b.spec_col() <= usize::MAX
    &&& forall|i: int, j: int, k: int|
        0 <= i < a.spec_row() && 0 <= j < b.spec_col() && 0 <= k < a.spec_col()
            ==> #[trigger] term_fits(a, b, i, j, k)
}

/// The cell in row `i` and column `j` lies at a place of its own below
/// `rows * cols`, and row and column can be read off that place.
pub proof fn lemma_cell_index(i: int, j: int, rows: int, cols: int)
    requires
        0 <= i < rows,
        0 <= j < cols,
    ensures
        0 <= i * cols,
        i * cols + j < rows * cols,
        (i * cols + j) / cols == i,
        (i * cols + j) % cols == j,
{
    assert(0 <= i * cols && i * cols + cols <= rows * cols) by (nonlinear_arith)
        requires
            0 <= i < rows,
            0 < cols,
    ;
    vstd::arithmetic::div_mod::lemma_fundamental_div_mod_converse(i * cols + j, cols, i, j);
}

/// Whether `multiply` may be called on `a` and `b`: their sizes do not go
/// together, or `can_multiply` holds of them.
pub fn fits_multiply(a: &Matrix<i64>, b: &Matrix<i64>) -> (ok: bool)
    ensures
        ok == (a.spec_col() == b.spec_row() ==> can_multiply(a, b)),
{
    if a.col != b.row {
        return true;
    }
    if !a.is_complete() || !b.is_complete() {
        return false;
    }
    if a.row.checked_mul(b.col).is_none() {
        return false;
    }
    let rows: usize = a.row;
    let cols: usize = b.col;
    let inner: usize = a.col;
    let left_len: usize = a.data.len();
    let right_len: usize = b.data.len();
    let mut i: usize = 0;
    while i < rows
        invariant
            a.spec_col() == b.spec_row(),
            a.complete(),
            b.complete(),
            rows == a.spec_row(),
            cols == b.spec_col(),
            inner == a.spec_col(),
            rows * cols <= usize::MAX,
            left_len == a.spec_data().len(),
            right_len == b.spec_data().len(),
            0 <= i <= rows,
            forall|x: int, y: int, z: int|
                0 <= x < i && 0 <= y < cols && 0 <= z < inner ==> #[trigger] term_fits(a, b, x, y, z),
        decreases rows - i,
    {
        let mut j: usize = 0;
        while j < cols
            invariant
                a.spec_col() == b.spec_row(),
                a.complete(),
                b.complete(),
                rows == a.spec_row(),
                cols == b.spec_col(),
                inner == a.spec_col(),
                rows * cols <= usize::MAX,
                left_len == a.spec_data().len(),
                right_len == b.spec_data().len(),
                0 <= i < rows,
                0 <= j <= cols,
                forall|x: int, y: int, z: int|
                    0 <= x < i && 0 <= y < cols && 0 <= z < inner ==> #[trigger] term_fits(a, b, x, y, z),
                forall|y: int, z: int|
                    0 <= y < j && 0 <= z < inner ==> #[trigger] term_fits(a, b, i as int, y, z),
            decreases cols - j,
        {
            let mut sum: i64 = 0;
            let mut k: usize = 0;
            while k < inner
                invariant
                    a.spec_col() == b.spec_row(),
                    a.complete(),
                    b.complete(),
                    rows == a.spec_row(),
                    cols == b.spec_col(),
                    inner == a.spec_col(),
                    rows * cols <= usize::MAX,
                    left_len == a.spec_data().len(),
                    right_len == b.spec_data().len(),
                    0 <= i < rows,
                    0 <= j < cols,
                    0 <= k <= inner,
                    sum == cell_sum(a, b, i as int, j as int, k as int),
                    forall|x: int, y: int, z: int|
                        0 <= x < i && 0 <= y < cols && 0 <= z < inner ==> #[trigger] term_fits(a, b, x, y, z),
                    forall|y: int, z: int|
                        0 <= y < j && 0 <= z < inner ==> #[trigger] term_fits(a, b, i as int, y, z),
                    forall|z: int| 0 <= z < k ==> #[trigger] term_fits(a, b, i as int, j as int, z),
                decreases inner - k,
            {
                proof {
                    lemma_cell_index(i as int, k as int, rows as int, inner as int);
                    lemma_cell_index(k as int, j as int, inner as int, cols as int);
                    assert(i * inner + k < a.data@.len());
                    assert(k * cols + j < b.data@.len());
                }
                let left: i64 = a.data[i * inner + k];
                let right: i64 = b.data[k * cols + j];
                proof {
                    assert(term(a, b, i as int, j as int, k as int) == left * right);
                    assert(cell_sum(a, b, i as int, j as int, k + 1) == sum + term(
                        a,
                        b,
                        i as int,
                        j as int,
                        k as int,
                    ));
                }
                let product = left.checked_mul(right);
                if product.is_none() {
                    assert(!term_fits(a, b, i as int, j as int, k as int));
                    return false;
                }
                let next = sum.checked_add(product.unwrap());
                if next.is_none() {
                    assert(!term_fits(a, b, i as int, j as int, k as int));
                    return false;
                }
                sum = next.unwrap();
                assert(term_fits(a, b, i as int, j as int, k as int));
                k += 1;
            }
            j += 1;
        }
        i += 1;
    }
    true
}

/// Multiplies `a` by `b`, or says that their sizes do not go together.
///
/// The result has `a`'s rows and `b`'s columns. Its entry in row `i` and
/// column `j` is the sum, over every column `k` of `a`, of `a`'s entry in row
/// `i` and column `k` times `b`'s entry in row `k` and column `j`.
pub fn multiply(a: &Matrix<i64>, b: &Matrix<i64>) -> (r: Result<Matrix<i64>, MatrixError>)
    requires
        a.spec_col() == b.spec_row() ==> can_multiply(a, b),
    ensures
        a.spec_col() != b.spec_row() <==> r == Err::<Matrix<i64>, MatrixError>(
            MatrixError::SizeMismatch,
        ),
        a.spec_col() == b.spec_row() <==> r is Ok,
        r is Ok ==> {
            let m = r->Ok_0;
            &&& m.spec_row() == a.spec_row()
            &&& m.spec_col() == b.spec_col()
            &&& m.spec_data().len() == a.spec_row() * b.spec_col()
            &&& forall|i: int, j: int|
                0 <= i < m.spec_row() && 0 <= j < m.spec_col() ==> #[trigger] m.at(i, j)
                    == cell_sum(a, b, i, j, a.spec_col() as int)
        },
{
    if a.col != b.row {
        return Err(MatrixError::SizeMismatch);
    }
    let rows: usize = a.row;
    let cols: usize = b.col;
    let inner: usize = a.col;
    let n: usize = rows * cols;
    let left_len: usize = a.data.len();
    let right_len: usize = b.data.len();
    let mut data: Vec<i64> = vec![0i64; n];
    let mut i: usize = 0;
    while i < rows
        invariant
            a.spec_col() == b.spec_row(),
            can_multiply(a, b),
            rows == a.spec_row(),
            cols == b.spec_col(),
            inner == a.spec_col(),
            rows * cols <= usize::MAX,
            left_len == a.spec_data().len(),
            right_len == b.spec_data().len(),
            n == rows * cols,
            data@.len() == n,
            0 <= i <= rows,
            i * cols <= n,
            forall|p: int| 0 <= p < i * cols ==> data@[p] == flat_entry(a, b, p),
            forall|p: int| i * cols <= p < n ==> data@[p] == 0,
        decreases rows - i,
    {
        let mut j: usize = 0;
        while j < cols
            invariant
                a.spec_col() == b.spec_row(),
                can_multiply(a, b),
                rows == a.spec_row(),
                cols == b.spec_col(),
                inner == a.spec_col(),
                rows * cols <= usize::MAX,
                left_len == a.spec_data().len(),
                right_len == b.spec_data().len(),
                n == rows * cols,
                data@.len() == n,
                0 <= i < rows,
                0 <= j <= cols,
                i * cols + j <= n,
                forall|p: int| 0 <= p < i * cols + j ==> data@[p] == flat_entry(a, b, p),
                forall|p: int| i * cols + j <= p < n ==> data@[p] == 0,
            decreases cols - j,
        {
            proof {
                lemma_cell_index(i as int, j as int, rows as int, cols as int);
            }
            let cell: usize = i * cols + j;
            let mut k: usize = 0;
            while k < inner
                invariant
                    a.spec_col() == b.spec_row(),
                    can_multiply(a, b),
                    rows == a.spec_row(),
                    cols == b.spec_col(),
                    inner == a.spec_col(),
                    rows * cols <= usize::MAX,
                    left_len == a.spec_data().len(),
                    right_len == b.spec_data().len(),
                    n == rows * cols,
                    data@.len() == n,
                    0 <= i < rows,
                    0 <= j < cols,
                    0 <= k <= inner,
                    cell == i * cols + j,
                    cell < n,
                    forall|p: int| 0 <= p < cell ==> data@[p] == flat_entry(a, b, p),
                    forall|p: int| cell < p < n ==> data@[p] == 0,
                    data@[cell as int] == cell_sum(a, b, i as int, j as int, k as int),
                decreases inner - k,
            {
                proof {
                    lemma_cell_index(i as int, k as int, rows as int, inner as int);
                    lemma_cell_index(k as int, j as int, inner as int, cols as int);
                    assert(term_fits(a, b, i as int, j as int, k as int));
                    assert(a.complete() && b.complete());
                    assert(i * inner + k < a.data@.len());
                    assert(k * cols + j < b.data@.len());
                }
                let left: i64 = a.data[i * inner + k];
                let right: i64 = b.data[k * cols + j];
                let sum: i64 = data[cell];
                data.set(cell, sum + left * right);
                k += 1;
            }
            j += 1;
        }
        proof {
            assert((i + 1) * cols == i * cols + cols) by (nonlinear_arith);
        }
        i += 1;
    }
    proof {
        assert forall|x: int, y: int| 0 <= x < rows && 0 <= y < cols implies data@[x * cols + y]
            == #[trigger] cell_sum(a, b, x, y, inner as int) by {
            lemma_cell_index(x, y, rows as int, cols as int);
        }
    }
    let m = Matrix { data, row: rows, col: cols };
    Ok(m)
}

} // verus!
