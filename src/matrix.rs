//! The dense cell storage: ndarray's two-dimensional array of [`Value`]s,
//! seen through its rows of cells and its column count.
use crate::value::{Value, ValueView};
use vstd::prelude::*;

verus! {

/// A two-dimensional array of cells, held by ndarray.
#[verifier::external_body]
#[derive(Debug, PartialEq)]
pub struct Matrix {
    cells: ndarray::Array2<Value>,
}

/// The cells of a matrix, row by row.
pub uninterp spec fn grid_cells(m: Matrix) -> Seq<Seq<ValueView>>;

/// The column count of a matrix (also where it has no rows).
pub uninterp spec fn grid_width(m: Matrix) -> nat;

/// A shape that ndarray can hold: the product of the non-zero axis lengths
/// does not exceed `isize::MAX`.
pub open spec fn addressable(rows: nat, cols: nat) -> bool {
    (if rows == 0 { 1 } else { rows }) * (if cols == 0 { 1 } else { cols }) <= isize::MAX
}

pub open spec fn values_view(s: Seq<Value>) -> Seq<ValueView> {
    s.map_values(|v: Value| v@)
}

/// The rows of a row-major sequence of cells.
pub open spec fn chunked(cells: Seq<ValueView>, rows: nat, cols: nat) -> Seq<Seq<ValueView>> {
    Seq::new(rows, |i: int| cells.subrange(i * cols, i * cols + cols))
}

proof fn lemma_grid_index(i: int, k: int, rows: int, cols: int)
    requires
        0 <= i < rows,
        0 <= k <= cols,
    ensures
        0 <= i * cols,
        0 <= i * cols + k <= rows * cols,
        k < cols ==> i * cols + k < rows * cols,
        (i + 1) * cols == i * cols + cols,
        i * cols + cols <= rows * cols,
{
    assert(0 <= i * cols) by (nonlinear_arith) requires 0 <= i, 0 <= cols;
    assert(i * cols + cols <= rows * cols) by (nonlinear_arith) requires 0 <= i < rows, 0 <= cols;
    assert((i + 1) * cols == i * cols + cols) by (nonlinear_arith);
}

impl Matrix {
    /// Relies on `Array2::from_shape_vec((rows, cols), cells)`: row-major
    /// reading of `cells`, refused unless the shape is addressable and holds
    /// exactly `cells.len()` cells.
    #[verifier::external_body]
    pub(crate) fn from_vec(rows: usize, cols: usize, cells: Vec<Value>) -> (r: Option<Matrix>)
        ensures
            r is Some <==> (rows * cols == cells@.len() && addressable(rows as nat, cols as nat)),
            r matches Some(m) ==> grid_cells(m) == chunked(values_view(cells@), rows as nat, cols as nat)
                && grid_width(m) == cols,
    {
        match ndarray::Array2::from_shape_vec((rows, cols), cells) {
            Ok(a) => Some(Matrix { cells: a }),
            Err(_) => None,
        }
    }

    /// A matrix whose rows are `rows`; `None` unless every row has `width`
    /// cells and ndarray can hold the shape.
    pub fn from_rows(rows: Vec<Vec<Value>>, width: usize) -> (r: Option<Matrix>)
        ensures
            r is Some <==> (forall|i: int| 0 <= i < rows@.len() ==> #[trigger] rows@[i]@.len() == width)
                && addressable(rows@.len(), width as nat),
            r matches Some(m) ==> grid_width(m) == width
                && grid_cells(m) == rows@.map_values(|row: Vec<Value>| values_view(row@)),
    {
        let ghost want = rows@.map_values(|row: Vec<Value>| values_view(row@));
        let n = rows.len();
        let mut k: usize = 0;
        while k < n
            invariant
                n == rows.len(),
                k <= n,
                forall|i: int| 0 <= i < k ==> #[trigger] rows@[i]@.len() == width,
            decreases n - k,
        {
            if rows[k].len() != width {
                return None;
            }
            k += 1;
        }
        if n > 0 && width > 0 && n > (isize::MAX as usize) / width {
            proof {
                assert(!addressable(n as nat, width as nat)) by (nonlinear_arith)
                    requires n > (isize::MAX as usize) / width, width > 0, n > 0;
            }
            return None;
        }
        if n > isize::MAX as usize || width > isize::MAX as usize {
            proof {
                assert(!addressable(n as nat, width as nat)) by (nonlinear_arith)
                    requires
                        n > isize::MAX || width > isize::MAX,
                        n > 0 && width > 0 ==> n <= (isize::MAX as usize) / width;
            }
            return None;
        }
        proof {
            assert(n > 0 && width > 0 ==> n * width <= isize::MAX) by (nonlinear_arith)
                requires n > 0 && width > 0 ==> n <= (isize::MAX as usize) / width;
        }
        let mut flat: Vec<Value> = Vec::new();
        let mut i: usize = 0;
        while i < n
            invariant
                n == rows.len(),
                i <= n,
                want == rows@.map_values(|row: Vec<Value>| values_view(row@)),
                forall|p: int| 0 <= p < n ==> #[trigger] rows@[p]@.len() == width,
                n > 0 && width > 0 ==> n * width <= isize::MAX,
                flat.len() == i * width,
                forall|p: int, q: int| 0 <= p < i && 0 <= q < width ==> #[trigger] values_view(flat@)[p * width + q] == want[p][q],
            decreases n - i,
        {
            let mut j: usize = 0;
            proof { lemma_grid_index(i as int, 0, n as int, width as int); }
            while j < width
                invariant
                    n == rows.len(),
                    i < n,
                    j <= width,
                    want == rows@.map_values(|row: Vec<Value>| values_view(row@)),
                    forall|p: int| 0 <= p < n ==> #[trigger] rows@[p]@.len() == width,
                    n > 0 && width > 0 ==> n * width <= isize::MAX,
                    flat.len() == i * width + j,
                    forall|p: int, q: int| 0 <= p < i && 0 <= q < width ==> #[trigger] values_view(flat@)[p * width + q] == want[p][q],
                    forall|q: int| 0 <= q < j ==> #[trigger] values_view(flat@)[i * width + q] == want[i as int][q],
                decreases width - j,
            {
                proof { lemma_grid_index(i as int, j as int, n as int, width as int); }
                let v = rows[i][j].copied();
                let ghost before = flat@;
                flat.push(v);
                proof {
                    assert forall|p: int, q: int| 0 <= p < i && 0 <= q < width implies #[trigger] values_view(flat@)[p * width + q] == want[p][q] by {
                        lemma_grid_index(p, q, i as int, width as int);
                        assert(values_view(flat@)[p * width + q] == values_view(before)[p * width + q]);
                    }
                    assert forall|q: int| 0 <= q < j + 1 implies #[trigger] values_view(flat@)[i * width + q] == want[i as int][q] by {
                        if q < j {
                            assert(values_view(flat@)[i * width + q] == values_view(before)[i * width + q]);
                        } else {
                            assert(flat@[i * width + q] == v);
                        }
                    }
                }
                j += 1;
            }
            proof { lemma_grid_index(i as int, 0, n as int, width as int); }
            i += 1;
        }
        let ghost fv = values_view(flat@);
        assert(fv.len() == n * width);
        let m = Matrix::from_vec(n, width, flat);
        match m {
            Some(m) => {
                proof {
                    let cells = grid_cells(m);
                    assert forall|p: int| 0 <= p < n implies #[trigger] cells[p] =~= want[p] by {
                        lemma_grid_index(p, 0, n as int, width as int);
                        assert forall|q: int| 0 <= q < width implies cells[p][q] == want[p][q] by {
                            lemma_grid_index(p, q, n as int, width as int);
                            assert(fv[p * width + q] == want[p][q]);
                        }
                    }
                    assert(cells =~= want);
                }
                Some(m)
            },
            None => None,
        }
    }

    /// Relies on `ArrayBase::dim` of a two-dimensional array: (rows, columns),
    /// and on the array's invariant that every row has `columns` cells and
    /// that the shape is addressable.
    #[verifier::external_body]
    pub(crate) fn shape(&self) -> (r: (usize, usize))
        ensures
            r.0 == grid_cells(*self).len(),
            r.1 == grid_width(*self),
            forall|i: int| 0 <= i < r.0 ==> #[trigger] grid_cells(*self)[i].len() == r.1,
            addressable(r.0 as nat, r.1 as nat),
    {
        self.cells.dim()
    }

    /// Relies on indexing an `Array2` by `[row, column]` (it panics out of bounds).
    #[verifier::external_body]
    pub(crate) fn get(&self, i: usize, j: usize) -> (r: &Value)
        requires
            i < grid_cells(*self).len(),
            j < grid_width(*self),
        ensures
            r@ == grid_cells(*self)[i as int][j as int],
    {
        &self.cells[[i, j]]
    }

    /// Relies on assigning through `IndexMut` of an `Array2` by `[row, column]`.
    #[verifier::external_body]
    pub(crate) fn set(&mut self, i: usize, j: usize, v: Value)
        requires
            i < grid_cells(*old(self)).len(),
            j < grid_width(*old(self)),
        ensures
            grid_cells(*final(self)) == grid_cells(*old(self)).update(
                i as int,
                grid_cells(*old(self))[i as int].update(j as int, v@),
            ),
            grid_width(*final(self)) == grid_width(*old(self)),
    {
        self.cells[[i, j]] = v;
    }

    /// Relies on `Clone` of an `Array2`: an array with the same shape and cells.
    #[verifier::external_body]
    pub(crate) fn duplicate(&self) -> (r: Matrix)
        ensures
            grid_cells(r) == grid_cells(*self),
            grid_width(r) == grid_width(*self),
    {
        Matrix { cells: self.cells.clone() }
    }
}

} // verus!
