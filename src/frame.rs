//! The data frame: row labels, column labels and a matrix of cells, with
//! index-based views of one row or column and the base axis iterator.
use crate::label::{Label, LabelView, labels_view, nat_text, position_label};
use crate::matrix::{Matrix, addressable, grid_cells, grid_width, values_view};
use crate::value::{Axis, FrameError, Value, ValueView};
use vstd::prelude::*;

verus! {

/// The mathematical content of a frame.
pub ghost struct FrameView {
    pub columns: Seq<LabelView>,
    pub index: Seq<LabelView>,
    pub cells: Seq<Seq<ValueView>>,
}

/// One row or column of cells of `cells`, at position `k` along `axis`.
pub open spec fn line_of(cells: Seq<Seq<ValueView>>, axis: Axis, k: int) -> Seq<ValueView> {
    match axis {
        Axis::Row => cells[k],
        Axis::Column => Seq::new(cells.len(), |i: int| cells[i][k]),
    }
}

/// A labelled line, as an axis iterator yields it.
pub type Entry = (LabelView, Seq<ValueView>);

impl FrameView {
    /// The labels walked along `axis`: the index for rows, the columns for columns.
    pub open spec fn labels_along(self, axis: Axis) -> Seq<LabelView> {
        match axis {
            Axis::Row => self.index,
            Axis::Column => self.columns,
        }
    }

    /// The labels of the other axis.
    pub open spec fn labels_across(self, axis: Axis) -> Seq<LabelView> {
        match axis {
            Axis::Row => self.columns,
            Axis::Column => self.index,
        }
    }

    /// Every labelled line along `axis`, in order.
    pub open spec fn entries(self, axis: Axis) -> Seq<Entry> {
        Seq::new(
            self.labels_along(axis).len(),
            |k: int| (self.labels_along(axis)[k], line_of(self.cells, axis, k)),
        )
    }

    /// The shape invariant: one row of cells per row label, one cell per
    /// column label in each row.
    pub open spec fn shaped(self) -> bool {
        &&& self.cells.len() == self.index.len()
        &&& forall|i: int| 0 <= i < self.cells.len() ==> #[trigger] self.cells[i].len() == self.columns.len()
    }
}

/// A frame built from lines along `axis` with `labels`, and `other` as the
/// labels of the other axis.
pub open spec fn assembled(
    axis: Axis,
    labels: Seq<LabelView>,
    lines: Seq<Seq<ValueView>>,
    other: Seq<LabelView>,
) -> FrameView {
    match axis {
        Axis::Row => FrameView { index: labels, columns: other, cells: lines },
        Axis::Column => FrameView {
            columns: labels,
            index: other,
            cells: Seq::new(other.len(), |i: int| Seq::new(lines.len(), |k: int| lines[k][i])),
        },
    }
}

/// Every line has `n` cells.
pub open spec fn lines_fit(lines: Seq<Seq<ValueView>>, n: nat) -> bool {
    forall|k: int| 0 <= k < lines.len() ==> #[trigger] lines[k].len() == n
}

/// The error of a frame whose lines along `axis` do not all have `n` cells:
/// the first line that differs is reported.
pub open spec fn misfit_error(axis: Axis, lines: Seq<Seq<ValueView>>, n: nat, e: FrameError) -> bool {
    exists|k: int|
        0 <= k < lines.len() && lines[k].len() != n
        && (forall|j: int| 0 <= j < k ==> #[trigger] lines[j].len() == n)
        && e == match axis {
            Axis::Row => FrameError::ColumnShapeMismatch { expected: n as usize, found: lines[k].len() as usize },
            Axis::Column => FrameError::IndexShapeMismatch { expected: n as usize, found: lines[k].len() as usize },
        }
}

/// What building a frame from lines gives: the frame where the lines fit the
/// other axis and the shape is addressable, else the first misfit, else an
/// overflow.
pub open spec fn assemble_outcome(
    axis: Axis,
    labels: Seq<LabelView>,
    lines: Seq<Seq<ValueView>>,
    other: Seq<LabelView>,
    r: Result<FrameView, FrameError>,
) -> bool {
    if !lines_fit(lines, other.len()) {
        r matches Err(e) && misfit_error(axis, lines, other.len(), e)
    } else if !addressable(line_count(axis, lines.len(), other.len()), line_count(axis, other.len(), lines.len())) {
        r == Err::<FrameView, FrameError>(FrameError::ShapeOverflow)
    } else {
        r == Ok::<FrameView, FrameError>(assembled(axis, labels, lines, other))
    }
}

/// The row count of a frame of `along` lines along `axis`, each of `across`
/// cells (the column count is `line_count(axis, across, along)`).
pub open spec fn line_count(axis: Axis, along: nat, across: nat) -> nat {
    match axis {
        Axis::Row => along,
        Axis::Column => across,
    }
}

/// The content of a frame result.
pub open spec fn result_view(r: Result<DataFrame, FrameError>) -> Result<FrameView, FrameError> {
    match r {
        Ok(d) => Ok(d@),
        Err(e) => Err(e),
    }
}

/// The default labels of a line of `n` positions: "0", "1", ..., "n-1".
pub open spec fn default_labels(n: nat) -> Seq<LabelView> {
    Seq::new(n, |i: int| LabelView::Text(nat_text(i as nat)))
}

/// A read-only data frame.
#[derive(Debug, PartialEq)]
pub struct DataFrame {
    pub columns: Vec<Label>,
    pub data: Matrix,
    pub index: Vec<Label>,
}

impl View for DataFrame {
    type V = FrameView;

    open spec fn view(&self) -> FrameView {
        FrameView {
            columns: labels_view(self.columns@),
            index: labels_view(self.index@),
            cells: grid_cells(self.data),
        }
    }
}

impl DataFrame {
    /// The matrix's shape agrees with the two label sequences.
    pub open spec fn wf(&self) -> bool {
        &&& self@.shaped()
        &&& grid_width(self.data) == self.columns.len()
        &&& addressable(self.index.len() as nat, self.columns.len() as nat)
    }

    /// A frame over `data`, labelled "0", "1", ... along both axes.
    pub fn new(data: Matrix) -> (r: DataFrame)
        ensures
            r.wf(),
            r@.cells == grid_cells(data),
            r@.index == default_labels(grid_cells(data).len()),
            r@.columns == default_labels(grid_width(data)),
    {
        let (rows, cols) = data.shape();
        let columns = default_label_vec(cols);
        let index = default_label_vec(rows);
        DataFrame { columns, data, index }
    }

    /// A one-column (`Axis::Column`) or one-row (`Axis::Row`) frame holding
    /// `data`, labelled "0", "1", ... along both axes.
    pub fn from_array(data: Vec<Value>, axis: Axis) -> (r: DataFrame)
        requires
            data@.len() <= isize::MAX,
        ensures
            r.wf(),
            r@ == match axis {
                Axis::Column => assembled(Axis::Column, default_labels(1), seq![values_view(data@)], default_labels(data@.len())),
                Axis::Row => assembled(Axis::Row, default_labels(1), seq![values_view(data@)], default_labels(data@.len())),
            },
    {
        let n = data.len();
        let ghost v = values_view(data@);
        let (rows, cols): (usize, usize) = match axis {
            Axis::Column => (n, 1),
            Axis::Row => (1, n),
        };
        let m = Matrix::from_vec(rows, cols, data);
        match m {
            Some(m) => {
                let columns = default_label_vec(cols);
                let index = default_label_vec(rows);
                let r = DataFrame { columns, data: m, index };
                proof {
                    let cells = grid_cells(r.data);
                    match axis {
                        Axis::Column => {
                            let want = assembled(Axis::Column, default_labels(1), seq![v], default_labels(n as nat));
                            assert forall|i: int| 0 <= i < n implies cells[i] =~= want.cells[i] by {
                                assert(cells[i] == v.subrange(i, i + 1));
                            }
                            assert(cells =~= want.cells);
                        },
                        Axis::Row => {
                            assert(cells[0] =~= v);
                            assert(cells =~= seq![v]);
                        },
                    }
                }
                r
            },
            None => unreached(),
        }
    }

    /// An empty frame: no rows, no columns.
    pub fn new_empty() -> (r: DataFrame)
        ensures
            r.wf(),
            r@.cells.len() == 0,
            r@.index.len() == 0,
            r@.columns.len() == 0,
    {
        let m = Matrix::from_vec(0, 0, Vec::new());
        match m {
            Some(m) => DataFrame { columns: Vec::new(), data: m, index: Vec::new() },
            None => unreached(),
        }
    }

    /// This frame with `columns` as its column labels; refused where their
    /// number differs from the matrix's column count.
    pub fn columns(self, columns: Vec<Label>) -> (r: Result<DataFrame, FrameError>)
        requires
            self.wf(),
        ensures
            columns.len() == self.columns.len() ==> (r matches Ok(d) && d.wf()
                && d@ == (FrameView { columns: labels_view(columns@), ..self@ })),
            columns.len() != self.columns.len() ==> r == Err::<DataFrame, FrameError>(
                FrameError::ColumnShapeMismatch { expected: self.columns.len(), found: columns.len() },
            ),
    {
        let (_, width) = self.data.shape();
        if columns.len() != width {
            return Err(FrameError::ColumnShapeMismatch { expected: width, found: columns.len() });
        }
        Ok(DataFrame { columns, data: self.data, index: self.index })
    }

    /// This frame with `index` as its row labels; refused where their number
    /// differs from the matrix's row count.
    pub fn index(self, index: Vec<Label>) -> (r: Result<DataFrame, FrameError>)
        requires
            self.wf(),
        ensures
            index.len() == self.index.len() ==> (r matches Ok(d) && d.wf()
                && d@ == (FrameView { index: labels_view(index@), ..self@ })),
            index.len() != self.index.len() ==> r == Err::<DataFrame, FrameError>(
                FrameError::IndexShapeMismatch { expected: self.index.len(), found: index.len() },
            ),
    {
        let (height, _) = self.data.shape();
        if index.len() != height {
            return Err(FrameError::IndexShapeMismatch { expected: height, found: index.len() });
        }
        Ok(DataFrame { columns: self.columns, data: self.data, index })
    }

    /// (rows, columns).
    pub fn shape(&self) -> (r: (usize, usize))
        requires
            self.wf(),
        ensures
            r == (self.index.len(), self.columns.len()),
    {
        self.data.shape()
    }

    /// Whether the label sequences agree with the matrix's shape.
    pub fn is_consistent(&self) -> (r: bool)
        ensures
            r == self.wf(),
    {
        let (rows, cols) = self.data.shape();
        rows == self.index.len() && cols == self.columns.len()
    }

    /// Cell (`i`, `j`).
    pub fn cell(&self, i: usize, j: usize) -> (r: &Value)
        requires
            self.wf(),
            i < self.index.len(),
            j < self.columns.len(),
        ensures
            r@ == self@.cells[i as int][j as int],
    {
        self.data.get(i, j)
    }

    /// A copy of this frame.
    pub fn duplicate(&self) -> (r: DataFrame)
        requires
            self.wf(),
        ensures
            r.wf(),
            r@ == self@,
    {
        DataFrame {
            columns: copy_labels(&self.columns),
            data: self.data.duplicate(),
            index: copy_labels(&self.index),
        }
    }

    /// The base iterator along `axis`: every (label, line) pair in order.
    pub fn df_iter(&self, axis: Axis) -> (r: DataFrameIterator<'_>)
        requires
            self.wf(),
        ensures
            r.valid(),
            r.rest() == self@.entries(axis),
            labels_view(r.other@) == self@.labels_across(axis),
            r.axis == axis,
            r.frame == self,
            r.pos == 0,
    {
        let other = match axis {
            Axis::Row => copy_labels(&self.columns),
            Axis::Column => copy_labels(&self.index),
        };
        let r = DataFrameIterator { frame: self, axis, pos: 0, other };
        assert(r.rest() =~= self@.entries(axis));
        r
    }

    /// The line at position `k` along `axis`.
    pub fn line(&self, axis: Axis, k: usize) -> (r: AxisView<'_>)
        requires
            self.wf(),
            k < self@.labels_along(axis).len(),
        ensures
            r.valid(),
            r.values() == line_of(self@.cells, axis, k as int),
    {
        AxisView { frame: self, axis, pos: k }
    }
}

/// Copies of `labels`, in order.
pub fn copy_labels(labels: &Vec<Label>) -> (r: Vec<Label>)
    ensures
        labels_view(r@) == labels_view(labels@),
        r.len() == labels.len(),
{
    let mut out: Vec<Label> = Vec::new();
    let mut i: usize = 0;
    while i < labels.len()
        invariant
            i <= labels.len(),
            out.len() == i,
            labels_view(out@) =~= labels_view(labels@).subrange(0, i as int),
        decreases labels.len() - i,
    {
        let ghost before = labels_view(out@);
        out.push(labels[i].copied());
        assert(labels_view(out@) =~= before.push(labels@[i as int]@));
        i += 1;
    }
    assert(labels_view(labels@).subrange(0, labels.len() as int) =~= labels_view(labels@));
    out
}

/// "0", "1", ..., "n-1".
pub fn default_label_vec(n: usize) -> (r: Vec<Label>)
    ensures
        labels_view(r@) == default_labels(n as nat),
        r.len() == n,
{
    let mut out: Vec<Label> = Vec::new();
    let mut i: usize = 0;
    while i < n
        invariant
            i <= n,
            out.len() == i,
            labels_view(out@) =~= default_labels(i as nat),
        decreases n - i,
    {
        let ghost before = labels_view(out@);
        out.push(position_label(i));
        assert(labels_view(out@) =~= before.push(LabelView::Text(nat_text(i as nat))));
        assert(default_labels((i + 1) as nat) =~= default_labels(i as nat).push(LabelView::Text(nat_text(i as nat))));
        i += 1;
    }
    out
}

/// A zero-copy window on one row or column of a frame.
pub struct AxisView<'a> {
    pub frame: &'a DataFrame,
    pub axis: Axis,
    pub pos: usize,
}

impl<'a> AxisView<'a> {
    pub open spec fn valid(&self) -> bool {
        self.frame.wf() && self.pos < self.frame@.labels_along(self.axis).len()
    }

    /// The cells of the window, in order.
    pub open spec fn values(&self) -> Seq<ValueView> {
        line_of(self.frame@.cells, self.axis, self.pos as int)
    }

    pub fn len(&self) -> (r: usize)
        requires
            self.valid(),
        ensures
            r == self.values().len(),
    {
        match self.axis {
            Axis::Row => self.frame.columns.len(),
            Axis::Column => self.frame.index.len(),
        }
    }

    /// The `k`-th cell of the window.
    pub fn get(&self, k: usize) -> (r: &'a Value)
        requires
            self.valid(),
            k < self.values().len(),
        ensures
            r@ == self.values()[k as int],
    {
        match self.axis {
            Axis::Row => self.frame.data.get(self.pos, k),
            Axis::Column => self.frame.data.get(k, self.pos),
        }
    }

    /// Copies of the window's cells.
    pub fn to_vec(&self) -> (r: Vec<Value>)
        requires
            self.valid(),
        ensures
            values_view(r@) == self.values(),
    {
        let n = self.len();
        let mut out: Vec<Value> = Vec::new();
        let mut k: usize = 0;
        while k < n
            invariant
                self.valid(),
                n == self.values().len(),
                k <= n,
                values_view(out@) =~= self.values().subrange(0, k as int),
            decreases n - k,
        {
            let ghost before = values_view(out@);
            out.push(self.get(k).copied());
            assert(values_view(out@) =~= before.push(self.values()[k as int]));
            k += 1;
        }
        assert(self.values().subrange(0, n as int) =~= self.values());
        out
    }
}

/// The base axis iterator: the lines of a frame along one axis, each with
/// its label, in order.
pub struct DataFrameIterator<'a> {
    pub frame: &'a DataFrame,
    pub axis: Axis,
    pub pos: usize,
    pub other: Vec<Label>,
}

impl<'a> DataFrameIterator<'a> {
    pub open spec fn valid(&self) -> bool {
        self.frame.wf() && self.pos <= self.frame@.labels_along(self.axis).len()
    }

    /// What is still to be yielded.
    pub open spec fn rest(&self) -> Seq<Entry> {
        self.frame@.entries(self.axis).subrange(
            self.pos as int,
            self.frame@.labels_along(self.axis).len() as int,
        )
    }

    /// The next (label, line) pair, if any.
    pub fn next(&mut self) -> (r: Option<(Label, AxisView<'a>)>)
        requires
            old(self).valid(),
        ensures
            final(self).valid(),
            final(self).frame == old(self).frame,
            final(self).axis == old(self).axis,
            final(self).other == old(self).other,
            old(self).rest().len() == 0 ==> r is None && final(self).rest() == old(self).rest()
                && final(self).pos == old(self).pos,
            old(self).rest().len() > 0 ==> (r matches Some((l, v)) && v.valid()
                && (l@, v.values()) == old(self).rest()[0]
                && final(self).rest() == old(self).rest().drop_first()
                && final(self).pos == old(self).pos + 1),
    {
        let n = match self.axis {
            Axis::Row => self.frame.index.len(),
            Axis::Column => self.frame.columns.len(),
        };
        if self.pos >= n {
            return None;
        }
        let l = match self.axis {
            Axis::Row => self.frame.index[self.pos].copied(),
            Axis::Column => self.frame.columns[self.pos].copied(),
        };
        let v = AxisView { frame: self.frame, axis: self.axis, pos: self.pos };
        let ghost old_rest = self.rest();
        self.pos = self.pos + 1;
        assert(self.rest() =~= old_rest.drop_first());
        Some((l, v))
    }

    /// The number of pairs still to be yielded.
    pub fn remaining(&self) -> (r: usize)
        requires
            self.valid(),
        ensures
            r == self.rest().len(),
    {
        match self.axis {
            Axis::Row => self.frame.index.len() - self.pos,
            Axis::Column => self.frame.columns.len() - self.pos,
        }
    }

    /// A new frame from the pairs still to be yielded.
    pub fn collect(self) -> (r: Result<DataFrame, FrameError>)
        requires
            self.valid(),
        ensures
            collected(self.axis, self.rest(), labels_view(self.other@), r),
    {
        let axis = self.axis;
        let other = copy_labels(&self.other);
        let mut it = self;
        let (labels, lines) = drain(&mut it);
        assemble(axis, labels, lines, other)
    }
}

impl<'a> LineSource<'a> for DataFrameIterator<'a> {
    open spec fn valid(&self) -> bool {
        DataFrameIterator::valid(self)
    }

    open spec fn rest(&self) -> Seq<Entry> {
        DataFrameIterator::rest(self)
    }

    fn next_line(&mut self) -> (r: Option<(Label, AxisView<'a>)>) {
        self.next()
    }
}

/// A pull-based sequence of labelled lines: the base iterator and every
/// transform adapter.
pub trait LineSource<'a>: Sized {
    spec fn valid(&self) -> bool;

    /// What is still to be yielded.
    spec fn rest(&self) -> Seq<Entry>;

    /// The next (label, line) pair, if any.
    fn next_line(&mut self) -> (r: Option<(Label, AxisView<'a>)>)
        requires
            old(self).valid(),
        ensures
            final(self).valid(),
            old(self).rest().len() == 0 ==> r is None && final(self).rest() == old(self).rest(),
            old(self).rest().len() > 0 ==> (r matches Some((l, v)) && v.valid()
                && (l@, v.values()) == old(self).rest()[0]
                && final(self).rest() == old(self).rest().drop_first()),
    ;
}

/// Labels and copied lines of everything `src` still yields.
pub fn drain<'a, S: LineSource<'a>>(src: &mut S) -> (r: (Vec<Label>, Vec<Vec<Value>>))
    requires
        old(src).valid(),
    ensures
        r.0.len() == r.1.len(),
        drained(r.0@, r.1@) == old(src).rest(),
{
    let mut labels: Vec<Label> = Vec::new();
    let mut lines: Vec<Vec<Value>> = Vec::new();
    let ghost whole = src.rest();
    loop
        invariant
            src.valid(),
            labels.len() == lines.len(),
            whole == old(src).rest(),
            whole == drained(labels@, lines@) + src.rest(),
        decreases src.rest().len(),
    {
        let ghost before = drained(labels@, lines@);
        let ghost n = src.rest().len();
        match src.next_line() {
            Some((l, v)) => {
                let ghost e = (l@, v.values());
                labels.push(l);
                lines.push(v.to_vec());
                assert(drained(labels@, lines@) =~= before.push(e));
                assert(whole =~= drained(labels@, lines@) + src.rest());
            },
            None => {
                assert(n == 0);
                assert(drained(labels@, lines@) =~= whole);
                return (labels, lines);
            },
        }
    }
}

/// What collecting `rest` along `axis`, with `other` across, gives.
pub open spec fn collected(axis: Axis, rest: Seq<Entry>, other: Seq<LabelView>, r: Result<DataFrame, FrameError>) -> bool {
    &&& assemble_outcome(
        axis,
        rest.map_values(|e: Entry| e.0),
        rest.map_values(|e: Entry| e.1),
        other,
        result_view(r),
    )
    &&& (r matches Ok(d) ==> d.wf())
}

/// The (label, line) pairs of parallel label and line vectors.
pub open spec fn drained(labels: Seq<Label>, lines: Seq<Vec<Value>>) -> Seq<Entry> {
    Seq::new(labels.len(), |k: int| (labels[k]@, values_view(lines[k]@)))
}

proof fn lemma_row_major(i: int, k: int, rows: int, cols: int)
    requires
        0 <= i < rows,
        0 <= k < cols,
    ensures
        0 <= i * cols + k < rows * cols,
        0 <= i * cols,
        i * cols + cols <= rows * cols,
        (i + 1) * cols == i * cols + cols,
{
    assert(0 <= i * cols + k < rows * cols) by (nonlinear_arith)
        requires 0 <= i < rows, 0 <= k < cols;
    lemma_row_start(i, rows, cols);
}

proof fn lemma_row_start(i: int, rows: int, cols: int)
    requires
        0 <= i < rows,
        0 <= cols,
    ensures
        0 <= i * cols,
        i * cols + cols <= rows * cols,
        (i + 1) * cols == i * cols + cols,
{
    assert(0 <= i * cols) by (nonlinear_arith) requires 0 <= i, 0 <= cols;
    assert(i * cols + cols <= rows * cols) by (nonlinear_arith) requires 0 <= i < rows, 0 <= cols;
    assert((i + 1) * cols == i * cols + cols) by (nonlinear_arith);
}

/// A frame from lines along `axis`, labelled by `labels` along it and by
/// `other` across it.
pub fn assemble(axis: Axis, labels: Vec<Label>, lines: Vec<Vec<Value>>, other: Vec<Label>) -> (r: Result<DataFrame, FrameError>)
    requires
        labels.len() == lines.len(),
    ensures
        collected(axis, drained(labels@, lines@), labels_view(other@), r),
{
    let ghost lv = drained(labels@, lines@).map_values(|e: Entry| e.0);
    let ghost ls = drained(labels@, lines@).map_values(|e: Entry| e.1);
    assert(lv =~= labels_view(labels@));
    let n = other.len();
    let mut k: usize = 0;
    while k < lines.len()
        invariant
            k <= lines.len(),
            ls == drained(labels@, lines@).map_values(|e: Entry| e.1),
            labels.len() == lines.len(),
            n == other.len(),
            forall|j: int| 0 <= j < k ==> #[trigger] ls[j].len() == n,
        decreases lines.len() - k,
    {
        if lines[k].len() != n {
            let e = match axis {
                Axis::Row => FrameError::ColumnShapeMismatch { expected: n, found: lines[k].len() },
                Axis::Column => FrameError::IndexShapeMismatch { expected: n, found: lines[k].len() },
            };
            assert(ls[k as int].len() == lines[k as int]@.len());
            assert(misfit_error(axis, ls, n as nat, e));
            return Err(e);
        }
        k += 1;
    }
    assert(lines_fit(ls, n as nat));
    let (rows, cols): (usize, usize) = match axis {
        Axis::Row => (lines.len(), n),
        Axis::Column => (n, lines.len()),
    };
    let ghost want = assembled(axis, lv, ls, labels_view(other@));
    assert(line_count(axis, lines.len() as nat, n as nat) == rows);
    assert(line_count(axis, n as nat, lines.len() as nat) == cols);
    // row-major cells of the new frame
    let mut flat: Vec<Value> = Vec::new();
    if rows > 0 && cols > 0 {
        if rows > (isize::MAX as usize) / cols {
            proof {
                assert(!addressable(rows as nat, cols as nat)) by (nonlinear_arith)
                    requires rows > (isize::MAX as usize) / cols, cols > 0;
            }
            return Err(FrameError::ShapeOverflow);
        }
        proof {
            assert(rows * cols <= isize::MAX) by (nonlinear_arith)
                requires rows <= (isize::MAX as usize) / cols, cols > 0;
        }
    } else if rows > isize::MAX as usize || cols > isize::MAX as usize {
        return Err(FrameError::ShapeOverflow);
    }
    assert(addressable(rows as nat, cols as nat)) by (nonlinear_arith)
        requires
            rows > 0 && cols > 0 ==> rows * cols <= isize::MAX,
            rows <= isize::MAX || (rows > 0 && cols > 0),
            cols <= isize::MAX || (rows > 0 && cols > 0);
    let mut i: usize = 0;
    while i < rows
        invariant
            i <= rows,
            rows == want.cells.len(),
            forall|p: int| 0 <= p < rows ==> #[trigger] want.cells[p].len() == cols,
            ls == drained(labels@, lines@).map_values(|e: Entry| e.1),
            want == assembled(axis, lv, ls, labels_view(other@)),
            lines_fit(ls, n as nat),
            labels.len() == lines.len(),
            (rows, cols) == (match axis { Axis::Row => (lines.len(), n), Axis::Column => (n, lines.len()) }),
            rows * cols <= isize::MAX || rows == 0 || cols == 0,
            flat.len() == i * cols,
            forall|p: int, q: int| 0 <= p < i && 0 <= q < cols ==> #[trigger] values_view(flat@)[p * cols + q] == want.cells[p][q],
        decreases rows - i,
    {
        let mut j: usize = 0;
        proof { lemma_row_start(i as int, rows as int, cols as int); }
        while j < cols
            invariant
                i < rows,
                j <= cols,
                rows == want.cells.len(),
                forall|p: int| 0 <= p < rows ==> #[trigger] want.cells[p].len() == cols,
                ls == drained(labels@, lines@).map_values(|e: Entry| e.1),
                want == assembled(axis, lv, ls, labels_view(other@)),
                lines_fit(ls, n as nat),
                labels.len() == lines.len(),
                (rows, cols) == (match axis { Axis::Row => (lines.len(), n), Axis::Column => (n, lines.len()) }),
                flat.len() == i * cols + j,
                forall|p: int, q: int| 0 <= p < i && 0 <= q < cols ==> #[trigger] values_view(flat@)[p * cols + q] == want.cells[p][q],
                forall|q: int| 0 <= q < j ==> #[trigger] values_view(flat@)[i * cols + q] == want.cells[i as int][q],
            decreases cols - j,
        {
            let v = match axis {
                Axis::Row => {
                    assert(ls[i as int].len() == n);
                    lines[i][j].copied()
                },
                Axis::Column => {
                    assert(ls[j as int].len() == n);
                    lines[j][i].copied()
                },
            };
            assert(v@ == want.cells[i as int][j as int]);
            let ghost before = flat@;
            flat.push(v);
            proof {
                lemma_row_major(i as int, j as int, rows as int, cols as int);
                assert forall|p: int, q: int| 0 <= p < i && 0 <= q < cols implies #[trigger] values_view(flat@)[p * cols + q] == want.cells[p][q] by {
                    lemma_row_major(p, q, i as int, cols as int);
                    assert(values_view(flat@)[p * cols + q] == values_view(before)[p * cols + q]);
                }
                assert forall|q: int| 0 <= q < j + 1 implies #[trigger] values_view(flat@)[i * cols + q] == want.cells[i as int][q] by {
                    if q < j {
                        assert(values_view(flat@)[i * cols + q] == values_view(before)[i * cols + q]);
                    } else {
                        assert(flat@[i * cols + q] == v);
                    }
                }
            }
            j += 1;
        }
        proof {
            lemma_row_start(i as int, rows as int, cols as int);
            assert forall|p: int, q: int| 0 <= p < i + 1 && 0 <= q < cols implies #[trigger] values_view(flat@)[p * cols + q] == want.cells[p][q] by {
                if p == i {
                } else {
                }
            }
        }
        i += 1;
    }
    assert(flat.len() == rows * cols);
    let ghost fv = values_view(flat@);
    assert(fv.len() == rows * cols);
    assert forall|p: int, q: int| 0 <= p < rows && 0 <= q < cols implies #[trigger] fv[p * cols + q] == want.cells[p][q] by {
        assert(values_view(flat@)[p * cols + q] == want.cells[p][q]);
    }
    let m = Matrix::from_vec(rows, cols, flat);
    match m {
        Some(m) => {
            proof {
                lemma_row_major(0, 0, 1, 1);
                let cells = grid_cells(m);
                assert forall|p: int| 0 <= p < rows implies #[trigger] cells[p] =~= want.cells[p] by {
                    lemma_row_start(p, rows as int, cols as int);
                    assert(cells[p] == fv.subrange(p * cols, p * cols + cols));
                    assert forall|q: int| 0 <= q < cols implies cells[p][q] == want.cells[p][q] by {
                        lemma_row_major(p, q, rows as int, cols as int);
                        assert(fv[p * cols + q] == want.cells[p][q]);
                        assert(cells[p][q] == fv[p * cols + q]);
                    }
                }
                assert(cells =~= want.cells);
            }
            let (index, columns) = match axis {
                Axis::Row => (labels, other),
                Axis::Column => (other, labels),
            };
            let d = DataFrame { columns, data: m, index };
            assert(d@.columns =~= want.columns);
            assert(d@.index =~= want.index);
            Ok(d)
        },
        None => Err(FrameError::ShapeOverflow),
    }
}

} // verus!
