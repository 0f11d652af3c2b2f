use crate::error::MatrixError;
use vstd::prelude::*;

verus! {

/// What a matrix is, mathematically: its rows, each a sequence of entries, and
/// the number of columns (which the rows alone cannot tell when there are none).
pub struct Grid<T> {
    pub width: nat,
    pub cells: Seq<Seq<T>>,
}

impl<T> Grid<T> {
    /// Every row has exactly `width` entries.
    pub open spec fn wf(self) -> bool {
        forall|i: int| 0 <= i < self.cells.len() ==> (#[trigger] self.cells[i]).len() == self.width
    }

    pub open spec fn rows(self) -> nat {
        self.cells.len()
    }

    pub open spec fn columns(self) -> nat {
        self.width
    }

    /// The entry in row `i` and column `j`, both counted from zero.
    pub open spec fn at(self, i: int, j: int) -> T
        recommends
            0 <= i < self.rows(),
            0 <= j < self.columns(),
    {
        self.cells[i][j]
    }

    /// Column `j`, read from the top.
    pub open spec fn column(self, j: int) -> Seq<T> {
        Seq::new(self.cells.len(), |i: int| self.cells[i][j])
    }

    /// The grid of `rows` rows and `columns` columns whose entries, read row
    /// after row, are `values`.
    pub open spec fn of_flat(rows: nat, columns: nat, values: Seq<T>) -> Grid<T> {
        Grid {
            width: columns,
            cells: Seq::new(rows, |i: int| values.subrange(i * columns, i * columns + columns)),
        }
    }

    /// Rows and columns exchanged: entry `(j, i)` of the result is entry
    /// `(i, j)` of `self`.
    pub open spec fn transposed(self) -> Grid<T> {
        Grid { width: self.cells.len(), cells: Seq::new(self.width, |j: int| self.column(j)) }
    }

    /// The entries `(i, i)`, as far as both indices exist.
    pub open spec fn diagonal(self) -> Seq<T> {
        Seq::new(
            if self.cells.len() <= self.width { self.cells.len() } else { self.width },
            |i: int| self.cells[i][i],
        )
    }

    /// The first `k` rows.
    pub open spec fn leading_rows(self, k: nat) -> Grid<T>
        recommends
            k <= self.rows(),
    {
        Grid { width: self.width, cells: self.cells.subrange(0, k as int) }
    }

    /// The first `k` columns.
    pub open spec fn leading_columns(self, k: nat) -> Grid<T>
        recommends
            k <= self.columns(),
    {
        Grid {
            width: k,
            cells: Seq::new(self.cells.len(), |i: int| self.cells[i].subrange(0, k as int)),
        }
    }

    /// The square grid with `values` on its diagonal and `zero` elsewhere.
    pub open spec fn scaling(values: Seq<T>, zero: T) -> Grid<T> {
        Grid {
            width: values.len(),
            cells: Seq::new(
                values.len(),
                |i: int| Seq::new(values.len(), |j: int| if i == j { values[i] } else { zero }),
            ),
        }
    }
}

/// A dense matrix, stored row by row. It is never changed after it is made.
#[derive(Debug, PartialEq)]
pub struct Matrix<T> {
    cols: usize,
    data: Vec<Vec<T>>,
}

impl<T> View for Matrix<T> {
    type V = Grid<T>;

    closed spec fn view(&self) -> Grid<T> {
        Grid { width: self.cols as nat, cells: Seq::new(self.data@.len(), |i: int| self.data@[i]@) }
    }
}

impl<T> Matrix<T> {
    #[verifier::type_invariant]
    closed spec fn inv(&self) -> bool {
        forall|i: int| 0 <= i < self.data@.len() ==> (#[trigger] self.data@[i])@.len() == self.cols
    }
}

impl<T: Copy> Matrix<T> {
    /// Puts rows that are known to have `columns` entries each into a matrix.
    pub(crate) fn assemble(columns: usize, data: Vec<Vec<T>>) -> (m: Matrix<T>)
        requires
            forall|i: int| 0 <= i < data@.len() ==> (#[trigger] data@[i])@.len() == columns,
        ensures
            m@.wf(),
            m@.width == columns,
            m@.cells == Seq::new(data@.len(), |i: int| data@[i]@),
    {
        Matrix { cols: columns, data }
    }

    /// The number of rows.
    pub fn rows(&self) -> (n: usize)
        ensures
            n == self@.rows(),
            self@.wf(),
    {
        proof {
            use_type_invariant(self);
        }
        self.data.len()
    }

    /// The number of columns.
    pub fn columns(&self) -> (n: usize)
        ensures
            n == self@.columns(),
            self@.wf(),
    {
        proof {
            use_type_invariant(self);
        }
        self.cols
    }

    /// The entry at a position that is known to exist.
    pub(crate) fn cell(&self, i: usize, j: usize) -> (v: T)
        requires
            i < self@.rows(),
            j < self@.columns(),
        ensures
            v == self@.at(i as int, j as int),
    {
        proof {
            use_type_invariant(self);
        }
        self.data[i][j]
    }

    /// The entry in row `i` and column `j`, both counted from zero.
    pub fn element(&self, i: usize, j: usize) -> (r: Result<T, MatrixError>)
        ensures
            r is Ok <==> i < self@.rows() && j < self@.columns(),
            r matches Ok(v) ==> v == self@.at(i as int, j as int),
            r matches Err(e) ==> e == MatrixError::IndexOutOfBounds,
    {
        if i < self.rows() && j < self.columns() {
            Ok(self.cell(i, j))
        } else {
            Err(MatrixError::IndexOutOfBounds)
        }
    }
    /// Builds the matrix of `rows` rows and `columns` columns from its entries
    /// given row after row. The number of entries must be `rows * columns`.
    pub fn construct(rows: usize, columns: usize, values: Vec<T>) -> (r: Result<
        Matrix<T>,
        MatrixError,
    >)
        ensures
            r is Ok <==> values@.len() == rows * columns,
            r matches Ok(m) ==> m@.wf() && m@ == Grid::of_flat(
                rows as nat,
                columns as nat,
                values@,
            ),
            r matches Err(e) ==> e == MatrixError::DimensionMismatch,
    {
        let count: usize = values.len();
        match rows.checked_mul(columns) {
            Some(n) => {
                if n != count {
                    return Err(MatrixError::DimensionMismatch);
                }
            },
            None => {
                return Err(MatrixError::DimensionMismatch);
            },
        }
        let mut data: Vec<Vec<T>> = Vec::new();
        let mut i: usize = 0;
        let mut p: usize = 0;
        while i < rows
            invariant
                i <= rows,
                p == i * columns,
                values@.len() == rows * columns,
                values@.len() == count,
                data@.len() == i,
                forall|k: int| 0 <= k < i ==> (#[trigger] data@[k])@.len() == columns,
                forall|k: int|
                    0 <= k < i ==> (#[trigger] data@[k])@ == values@.subrange(
                        k * columns,
                        k * columns + columns,
                    ),
            decreases rows - i,
        {
            proof {
                lemma_row_fits(i as int, rows as int, columns as int);
            }
            let mut row: Vec<T> = Vec::new();
            let mut j: usize = 0;
            while j < columns
                invariant
                    j <= columns,
                    p == i * columns + j,
                    i * columns + columns <= values@.len(),
                    values@.len() == count,
                    row@ == values@.subrange(i * columns, i * columns + j),
                decreases columns - j,
            {
                row.push(values[p]);
                p = p + 1;
                j = j + 1;
                proof {
                    assert(row@ =~= values@.subrange(i * columns, i * columns + j));
                }
            }
            data.push(row);
            i = i + 1;
        }
        let m = Matrix::assemble(columns, data);
        proof {
            assert(m@.cells =~= Grid::of_flat(rows as nat, columns as nat, values@).cells);
        }
        Ok(m)
    }

    /// Builds a matrix of `columns` columns from its rows. Every row must have
    /// `columns` entries.
    pub fn from_rows(columns: usize, rows: Vec<Vec<T>>) -> (r: Result<Matrix<T>, MatrixError>)
        ensures
            r is Ok <==> (forall|i: int| 0 <= i < rows@.len() ==> (#[trigger] rows@[i])@.len() == columns),
            r matches Ok(m) ==> m@.wf() && m@.width == columns && m@.cells == Seq::new(
                rows@.len(),
                |i: int| rows@[i]@,
            ),
            r matches Err(e) ==> e == MatrixError::DimensionMismatch,
    {
        let mut i: usize = 0;
        while i < rows.len()
            invariant
                i <= rows@.len(),
                forall|k: int| 0 <= k < i ==> (#[trigger] rows@[k])@.len() == columns,
            decreases rows@.len() - i,
        {
            if rows[i].len() != columns {
                return Err(MatrixError::DimensionMismatch);
            }
            i = i + 1;
        }
        Ok(Matrix::assemble(columns, rows))
    }

    /// The entries, row after row.
    pub fn values(&self) -> (out: Vec<T>)
        ensures
            out@.len() == self@.rows() * self@.columns(),
            self@ == Grid::of_flat(self@.rows(), self@.columns(), out@),
    {
        proof {
            use_type_invariant(self);
        }
        let mut out: Vec<T> = Vec::new();
        let mut i: usize = 0;
        while i < self.data.len()
            invariant
                i <= self.data@.len(),
                forall|k: int|
                    0 <= k < self.data@.len() ==> (#[trigger] self.data@[k])@.len() == self.cols,
                out@.len() == i * self.cols,
                forall|k: int|
                    0 <= k < i ==> out@.subrange(k * self.cols, k * self.cols + self.cols)
                        == (#[trigger] self.data@[k])@,
            decreases self.data@.len() - i,
        {
            let ghost before = out@;
            let mut j: usize = 0;
            while j < self.cols
                invariant
                    i < self.data@.len(),
                    self.data@[i as int]@.len() == self.cols,
                    j <= self.cols,
                    out@.len() == i * self.cols + j,
                    out@ == before + self.data@[i as int]@.subrange(0, j as int),
                decreases self.cols - j,
            {
                out.push(self.data[i][j]);
                j = j + 1;
                proof {
                    assert(out@ =~= before + self.data@[i as int]@.subrange(0, j as int));
                }
            }
            proof {
                let c = self.cols as int;
                assert(self.data@[i as int]@.subrange(0, c) =~= self.data@[i as int]@);
                assert(out@.subrange(i * c, i * c + c) =~= self.data@[i as int]@);
                assert forall|k: int| 0 <= k < i implies out@.subrange(k * c, k * c + c) == (
                #[trigger] self.data@[k])@ by {
                    lemma_row_fits(k, i as int, c);
                    assert(out@.subrange(k * c, k * c + c) =~= before.subrange(k * c, k * c + c));
                }
                lemma_row_fits(i as int, i + 1, c);
            }
            i = i + 1;
        }
        proof {
            assert(self@.cells =~= Grid::of_flat(self@.rows(), self@.columns(), out@).cells);
        }
        out
    }
    /// The entries `(i, i)`, as far as both indices exist.
    pub fn diagonal(&self) -> (out: Vec<T>)
        ensures
            out@ == self@.diagonal(),
    {
        proof {
            use_type_invariant(self);
        }
        let rows: usize = self.data.len();
        let count: usize = if rows <= self.cols {
            rows
        } else {
            self.cols
        };
        let mut out: Vec<T> = Vec::new();
        let mut i: usize = 0;
        while i < count
            invariant
                i <= count,
                count <= self.data@.len(),
                count <= self.cols,
                forall|k: int|
                    0 <= k < self.data@.len() ==> (#[trigger] self.data@[k])@.len() == self.cols,
                out@ == self@.diagonal().subrange(0, i as int),
                self@.diagonal().len() == count,
            decreases count - i,
        {
            out.push(self.data[i][i]);
            i = i + 1;
            proof {
                assert(out@ =~= self@.diagonal().subrange(0, i as int));
            }
        }
        proof {
            assert(out@ =~= self@.diagonal());
        }
        out
    }

    /// The matrix made of the first `k` rows. There must be that many.
    pub fn leading_rows(&self, k: usize) -> (r: Result<Matrix<T>, MatrixError>)
        ensures
            r is Ok <==> k <= self@.rows(),
            r matches Ok(m) ==> m@.wf() && m@ == self@.leading_rows(k as nat),
            r matches Err(e) ==> e == MatrixError::IndexOutOfBounds,
    {
        proof {
            use_type_invariant(self);
        }
        if k > self.data.len() {
            return Err(MatrixError::IndexOutOfBounds);
        }
        let mut data: Vec<Vec<T>> = Vec::new();
        let mut i: usize = 0;
        while i < k
            invariant
                i <= k,
                k <= self.data@.len(),
                forall|p: int|
                    0 <= p < self.data@.len() ==> (#[trigger] self.data@[p])@.len() == self.cols,
                data@.len() == i,
                forall|p: int| 0 <= p < i ==> (#[trigger] data@[p])@ == self.data@[p]@,
            decreases k - i,
        {
            let mut line: Vec<T> = Vec::new();
            let mut j: usize = 0;
            while j < self.cols
                invariant
                    j <= self.cols,
                    i < self.data@.len(),
                    self.data@[i as int]@.len() == self.cols,
                    line@ == self.data@[i as int]@.subrange(0, j as int),
                decreases self.cols - j,
            {
                line.push(self.data[i][j]);
                j = j + 1;
                proof {
                    assert(line@ =~= self.data@[i as int]@.subrange(0, j as int));
                }
            }
            proof {
                assert(line@ =~= self.data@[i as int]@);
            }
            data.push(line);
            i = i + 1;
        }
        let m = Matrix::assemble(self.cols, data);
        proof {
            assert(m@.cells =~= self@.leading_rows(k as nat).cells);
        }
        Ok(m)
    }

    /// The matrix made of the first `k` columns. There must be that many.
    pub fn leading_columns(&self, k: usize) -> (r: Result<Matrix<T>, MatrixError>)
        ensures
            r is Ok <==> k <= self@.columns(),
            r matches Ok(m) ==> m@.wf() && m@ == self@.leading_columns(k as nat),
            r matches Err(e) ==> e == MatrixError::IndexOutOfBounds,
    {
        proof {
            use_type_invariant(self);
        }
        if k > self.cols {
            return Err(MatrixError::IndexOutOfBounds);
        }
        let mut data: Vec<Vec<T>> = Vec::new();
        let mut i: usize = 0;
        while i < self.data.len()
            invariant
                i <= self.data@.len(),
                k <= self.cols,
                forall|p: int|
                    0 <= p < self.data@.len() ==> (#[trigger] self.data@[p])@.len() == self.cols,
                data@.len() == i,
                forall|p: int|
                    0 <= p < i ==> (#[trigger] data@[p])@ == self.data@[p]@.subrange(0, k as int),
                forall|p: int| 0 <= p < i ==> (#[trigger] data@[p])@.len() == k,
            decreases self.data@.len() - i,
        {
            let mut line: Vec<T> = Vec::new();
            let mut j: usize = 0;
            while j < k
                invariant
                    j <= k,
                    k <= self.cols,
                    i < self.data@.len(),
                    self.data@[i as int]@.len() == self.cols,
                    line@ == self.data@[i as int]@.subrange(0, j as int),
                decreases k - j,
            {
                line.push(self.data[i][j]);
                j = j + 1;
                proof {
                    assert(line@ =~= self.data@[i as int]@.subrange(0, j as int));
                }
            }
            data.push(line);
            i = i + 1;
        }
        let m = Matrix::assemble(k, data);
        proof {
            assert(m@.cells =~= self@.leading_columns(k as nat).cells);
        }
        Ok(m)
    }

    /// The square matrix with `values` on its diagonal and `zero` elsewhere.
    pub fn scaling(values: &Vec<T>, zero: T) -> (m: Matrix<T>)
        ensures
            m@.wf(),
            m@ == Grid::scaling(values@, zero),
    {
        let n: usize = values.len();
        let mut data: Vec<Vec<T>> = Vec::new();
        let mut i: usize = 0;
        while i < n
            invariant
                i <= n,
                n == values@.len(),
                data@.len() == i,
                forall|p: int|
                    0 <= p < i ==> (#[trigger] data@[p])@ == Grid::scaling(values@, zero).cells[p],
            decreases n - i,
        {
            let mut line: Vec<T> = Vec::new();
            let mut j: usize = 0;
            while j < n
                invariant
                    j <= n,
                    i < n,
                    n == values@.len(),
                    line@ == Grid::scaling(values@, zero).cells[i as int].subrange(0, j as int),
                decreases n - j,
            {
                if i == j {
                    line.push(values[i]);
                } else {
                    line.push(zero);
                }
                j = j + 1;
                proof {
                    assert(line@ =~= Grid::scaling(values@, zero).cells[i as int].subrange(
                        0,
                        j as int,
                    ));
                }
            }
            proof {
                assert(line@ =~= Grid::scaling(values@, zero).cells[i as int]);
            }
            data.push(line);
            i = i + 1;
        }
        let m = Matrix::assemble(n, data);
        proof {
            assert(m@.cells =~= Grid::scaling(values@, zero).cells);
        }
        m
    }
}

/// Row `i` of a row-major layout with `rows` rows ends within the layout, and
/// row `i + 1` starts where row `i` ends.
pub proof fn lemma_row_fits(i: int, rows: int, columns: int)
    requires
        0 <= i < rows,
        0 <= columns,
    ensures
        0 <= i * columns,
        i * columns + columns == (i + 1) * columns,
        (i + 1) * columns <= rows * columns,
{
    assert(0 <= i * columns) by (nonlinear_arith)
        requires
            0 <= i,
            0 <= columns,
    ;
    assert(i * columns + columns == (i + 1) * columns) by (nonlinear_arith);
    assert((i + 1) * columns <= rows * columns) by (nonlinear_arith)
        requires
            i + 1 <= rows,
            0 <= columns,
    ;
}

} // verus!
