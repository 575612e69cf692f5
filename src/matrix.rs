//! Dense matrices stored column by column.
use vstd::prelude::*;

verus! {

/// The flat position of row `i`, column `j` lies inside the storage.
pub proof fn lemma_index_in_bounds(i: int, j: int, rows: int, cols: int)
    requires
        0 <= i < rows,
        0 <= j < cols,
    ensures
        0 <= j * rows + i < rows * cols,
        (j + 1) * rows <= rows * cols,
{
    assert(0 <= j * rows) by (nonlinear_arith)
        requires
            0 <= j,
            0 <= rows,
    ;
    assert((j + 1) * rows <= cols * rows) by (nonlinear_arith)
        requires
            j + 1 <= cols,
            0 <= rows,
    ;
    assert(j * rows + rows == (j + 1) * rows) by (nonlinear_arith);
    assert(cols * rows == rows * cols) by (nonlinear_arith);
}

/// Two distinct positions never share a flat position.
pub proof fn lemma_index_injective(i1: int, j1: int, i2: int, j2: int, rows: int)
    requires
        0 <= i1 < rows,
        0 <= i2 < rows,
        0 <= j1,
        0 <= j2,
        j1 * rows + i1 == j2 * rows + i2,
    ensures
        i1 == i2,
        j1 == j2,
{
    if j1 < j2 {
        assert((j1 + 1) * rows <= j2 * rows) by (nonlinear_arith)
            requires
                j1 + 1 <= j2,
                0 <= rows,
        ;
        assert(j1 * rows + rows == (j1 + 1) * rows) by (nonlinear_arith);
    } else if j2 < j1 {
        assert((j2 + 1) * rows <= j1 * rows) by (nonlinear_arith)
            requires
                j2 + 1 <= j1,
                0 <= rows,
        ;
        assert(j2 * rows + rows == (j2 + 1) * rows) by (nonlinear_arith);
    }
}

/// A dense matrix stored column by column.
pub struct Matrix<T> {
    pub rows: usize,
    pub cols: usize,
    pub cells: Vec<T>,
}

impl<T> Matrix<T> {
    /// The storage holds exactly one cell per position.
    pub open spec fn wf(&self) -> bool {
        self.cells@.len() == self.rows * self.cols
    }

    /// The cell at row `i` and column `j`.
    pub open spec fn at(&self, i: int, j: int) -> T {
        self.cells@[j * self.rows + i]
    }

    /// The number of cells of a well-formed matrix fits in a `usize`.
    pub proof fn lemma_size_fits(&self)
        requires
            self.wf(),
        ensures
            self.rows * self.cols <= usize::MAX,
    {
        assert(self.cells.len() == self.cells@.len());
    }

    /// Whether row `i`, column `j` is a position of this matrix.
    pub open spec fn contains(&self, i: int, j: int) -> bool {
        0 <= i < self.rows && 0 <= j < self.cols
    }

    /// Builds a matrix from its cells, given column by column; `None` when
    /// their number is not `rows * cols`.
    pub fn from_column_vec(rows: usize, cols: usize, cells: Vec<T>) -> (r: Option<Matrix<T>>)
        ensures
            r is Some <==> cells@.len() == rows * cols,
            r matches Some(m) ==> m.rows == rows && m.cols == cols && m.cells@ == cells@,
    {
        match rows.checked_mul(cols) {
            Some(n) => {
                if cells.len() == n {
                    Some(Matrix { rows, cols, cells })
                } else {
                    None
                }
            },
            None => {
                assert(cells.len() == cells@.len());
                None
            },
        }
    }

    pub fn shape(&self) -> (r: (usize, usize))
        ensures
            r == (self.rows, self.cols),
    {
        (self.rows, self.cols)
    }

    pub fn nrows(&self) -> (r: usize)
        ensures
            r == self.rows,
    {
        self.rows
    }

    pub fn ncols(&self) -> (r: usize)
        ensures
            r == self.cols,
    {
        self.cols
    }

    /// The cells, column by column.
    pub fn as_slice(&self) -> (r: &[T])
        ensures
            r@ == self.cells@,
    {
        self.cells.as_slice()
    }
}

impl<T> Matrix<T> {
    /// The `rows` by `cols` matrix whose cell at row `i`, column `j` is `f(i, j)`.
    pub fn from_fn<F: Fn(usize, usize) -> T>(rows: usize, cols: usize, f: F) -> (r: Matrix<T>)
        requires
            rows * cols <= usize::MAX,
            forall|i: usize, j: usize| i < rows && j < cols ==> #[trigger] f.requires((i, j)),
        ensures
            r.wf(),
            r.rows == rows,
            r.cols == cols,
            forall|i: usize, j: usize|
                i < rows && j < cols ==> f.ensures((i, j), #[trigger] r.at(i as int, j as int)),
    {
        let mut cells: Vec<T> = Vec::new();
        let mut j: usize = 0;
        while j < cols
            invariant
                j <= cols,
                rows * cols <= usize::MAX,
                forall|i: usize, j: usize| i < rows && j < cols ==> #[trigger] f.requires((i, j)),
                cells@.len() == j * rows,
                forall|p: usize, q: usize|
                    p < rows && q < j ==> f.ensures((p, q), #[trigger] cells@[q * rows + p]),
            decreases cols - j,
        {
            let mut i: usize = 0;
            proof {
                assert(j * rows + rows <= rows * cols) by (nonlinear_arith)
                    requires
                        j < cols,
                ;
            }
            while i < rows
                invariant
                    i <= rows,
                    j < cols,
                    j * rows + rows <= rows * cols,
                    rows * cols <= usize::MAX,
                    forall|i: usize, j: usize| i < rows && j < cols ==> #[trigger] f.requires((i, j)),
                    cells@.len() == j * rows + i,
                    forall|p: usize, q: usize|
                        p < rows && q < j ==> f.ensures((p, q), #[trigger] cells@[q * rows + p]),
                    forall|p: usize| p < i ==> f.ensures((p, j), #[trigger] cells@[j * rows + p]),
                decreases rows - i,
            {
                let v = f(i, j);
                let ghost before = cells@;
                cells.push(v);
                proof {
                    assert forall|p: usize, q: usize| p < rows && q < j implies f.ensures(
                        (p, q),
                        #[trigger] cells@[q * rows + p],
                    ) by {
                        lemma_index_in_bounds(p as int, q as int, rows as int, j as int);
                        assert(j * rows == rows * j) by (nonlinear_arith);
                        assert(cells@[q * rows + p] == before[q * rows + p]);
                    }
                }
                i = i + 1;
            }
            proof {
                assert((j + 1) * rows == j * rows + rows) by (nonlinear_arith);
            }
            j = j + 1;
        }
        proof {
            assert(cols * rows == rows * cols) by (nonlinear_arith);
        }
        Matrix { rows, cols, cells }
    }
}

impl<T: Copy> Matrix<T> {
    /// A `rows` by `cols` matrix whose cells all hold `value`.
    pub fn filled(rows: usize, cols: usize, value: T) -> (r: Matrix<T>)
        requires
            rows * cols <= usize::MAX,
        ensures
            r.wf(),
            r.rows == rows,
            r.cols == cols,
            forall|k: int| 0 <= k < r.cells@.len() ==> r.cells@[k] == value,
    {
        let n = rows * cols;
        let mut cells: Vec<T> = Vec::with_capacity(n);
        let mut k: usize = 0;
        while k < n
            invariant
                k <= n,
                cells@.len() == k,
                forall|q: int| 0 <= q < k ==> cells@[q] == value,
            decreases n - k,
        {
            cells.push(value);
            k = k + 1;
        }
        Matrix { rows, cols, cells }
    }

    /// The cell at row `i` and column `j`.
    pub fn get(&self, i: usize, j: usize) -> (r: T)
        requires
            self.wf(),
            self.contains(i as int, j as int),
        ensures
            r == self.at(i as int, j as int),
    {
        proof {
            self.lemma_size_fits();
            lemma_index_in_bounds(i as int, j as int, self.rows as int, self.cols as int);
        }
        self.cells[j * self.rows + i]
    }

    /// The four pixels around `(row, col)` used by bilinear interpolation:
    /// `(row, col)`, the one below, the one to the right, and the one diagonal
    /// to it. `None` unless `0 <= col < cols - 2` and `0 <= row < rows - 2`.
    pub fn interpolation_cells(&self, row: i64, col: i64) -> (r: Option<(T, T, T, T)>)
        requires
            self.wf(),
        ensures
            r is Some <==> 0 <= col < self.cols - 2 && 0 <= row < self.rows - 2,
            r matches Some(c) ==> c == (
                self.at(row as int, col as int),
                self.at(row + 1, col as int),
                self.at(row as int, col + 1),
                self.at(row + 1, col + 1),
            ),
    {
        if row < 0 || col < 0 {
            return None;
        }
        let (i, j) = (row as u64, col as u64);
        if self.rows < 2 || self.cols < 2 || i >= (self.rows - 2) as u64 || j >= (self.cols - 2) as u64 {
            return None;
        }
        let (i, j) = (i as usize, j as usize);
        Some((self.get(i, j), self.get(i + 1, j), self.get(i, j + 1), self.get(i + 1, j + 1)))
    }

    /// Writes `value` at row `i` and column `j`, leaving every other cell as it was.
    pub fn set(&mut self, i: usize, j: usize, value: T)
        requires
            old(self).wf(),
            old(self).contains(i as int, j as int),
        ensures
            final(self).wf(),
            final(self).rows == old(self).rows,
            final(self).cols == old(self).cols,
            final(self).at(i as int, j as int) == value,
            forall|p: int, q: int|
                final(self).contains(p, q) && !(p == i && q == j) ==> #[trigger] final(self).at(p, q)
                    == old(self).at(p, q),
    {
        proof {
            self.lemma_size_fits();
            lemma_index_in_bounds(i as int, j as int, self.rows as int, self.cols as int);
        }
        let k = j * self.rows + i;
        self.cells.set(k, value);
        proof {
            assert forall|p: int, q: int|
                self.contains(p, q) && !(p == i && q == j) implies #[trigger] self.at(p, q)
                    == old(self).at(p, q) by {
                lemma_index_in_bounds(p, q, self.rows as int, self.cols as int);
                if q * self.rows + p == k {
                    lemma_index_injective(p, q, i as int, j as int, self.rows as int);
                }
            }
        }
    }
}

} // verus!
