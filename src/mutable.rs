//! A read-write frame that borrows the cells of a [`DataFrame`], and the
//! iterator that walks its lines for in-place updates.
use crate::frame::{DataFrame, FrameView, copy_labels};
use crate::label::{Label, labels_view};
use crate::matrix::{Matrix, grid_cells, grid_width};
use crate::value::{Axis, FrameError, Value};
use vstd::prelude::*;

verus! {

/// A read-write frame: labels of its own, cells borrowed from a frame.
pub struct MutableDataFrame<'a> {
    pub columns: Vec<Label>,
    pub data: &'a mut Matrix,
    pub index: Vec<Label>,
}

impl<'a> MutableDataFrame<'a> {
    /// The content of the frame as it stands.
    pub open spec fn current(&self) -> FrameView {
        FrameView {
            columns: labels_view(self.columns@),
            index: labels_view(self.index@),
            cells: grid_cells(*self.data),
        }
    }

    /// The column count of the cells.
    pub open spec fn width(&self) -> nat {
        grid_width(*self.data)
    }

    pub open spec fn wf(&self) -> bool {
        &&& self.current().shaped()
        &&& self.width() == self.columns.len()
    }

    /// Cell (`i`, `j`).
    pub fn get(&self, i: usize, j: usize) -> (r: &Value)
        requires
            self.wf(),
            i < self.index.len(),
            j < self.columns.len(),
        ensures
            r@ == self.current().cells[i as int][j as int],
    {
        self.data.get(i, j)
    }

    /// Overwrites cell (`i`, `j`) with `v`.
    pub fn set(&mut self, i: usize, j: usize, v: Value)
        requires
            old(self).wf(),
            i < old(self).index.len(),
            j < old(self).columns.len(),
        ensures
            final(self).wf(),
            *final(final(self).data) == *final(old(self).data),
            final(self).columns == old(self).columns,
            final(self).index == old(self).index,
            final(self).current() == (FrameView {
                cells: old(self).current().cells.update(
                    i as int,
                    old(self).current().cells[i as int].update(j as int, v@),
                ),
                ..old(self).current()
            }),
    {
        self.data.set(i, j, v);
    }

    /// An owned frame holding copies of the labels and cells; refused where
    /// a label sequence does not fit the cells.
    pub fn to_df(self) -> (r: Result<DataFrame, FrameError>)
        ensures
            self.columns.len() != self.width() ==> r == Err::<DataFrame, FrameError>(
                FrameError::ColumnShapeMismatch { expected: self.width() as usize, found: self.columns.len() },
            ),
            self.columns.len() == self.width() && self.index.len() != self.current().cells.len()
                ==> r == Err::<DataFrame, FrameError>(
                FrameError::IndexShapeMismatch { expected: self.current().cells.len() as usize, found: self.index.len() },
            ),
            self.columns.len() == self.width() && self.index.len() == self.current().cells.len()
                ==> (r matches Ok(d) && d.wf() && d@ == self.current()),
    {
        let data = self.data.duplicate();
        let (rows, cols) = data.shape();
        if self.columns.len() != cols {
            return Err(FrameError::ColumnShapeMismatch { expected: cols, found: self.columns.len() });
        }
        if self.index.len() != rows {
            return Err(FrameError::IndexShapeMismatch { expected: rows, found: self.index.len() });
        }
        let columns = copy_labels(&self.columns);
        let index = copy_labels(&self.index);
        Ok(DataFrame { columns, data, index })
    }
}

/// Walks the lines of a read-write frame along one axis; the cells of the
/// line last yielded can be read and overwritten in place.
pub struct MutableDataFrameIterator<'a> {
    pub frame: MutableDataFrame<'a>,
    pub axis: Axis,
    pub pos: usize,
    pub other: Vec<Label>,
}

impl<'a> MutableDataFrameIterator<'a> {
    pub open spec fn valid(&self) -> bool {
        self.frame.wf() && self.pos <= self.frame.current().labels_along(self.axis).len()
    }

    /// The position of cell `k` of line `line` along the axis.
    pub open spec fn cell_at(axis: Axis, line: int, k: int) -> (int, int) {
        match axis {
            Axis::Row => (line, k),
            Axis::Column => (k, line),
        }
    }

    /// Moves to the next line and yields its label; the line then stands at
    /// position `pos - 1`.
    pub fn next(&mut self) -> (r: Option<Label>)
        requires
            old(self).valid(),
        ensures
            final(self).valid(),
            final(self).frame == old(self).frame,
            final(self).axis == old(self).axis,
            old(self).pos < old(self).frame.current().labels_along(old(self).axis).len() ==> (r matches Some(l)
                && l@ == old(self).frame.current().labels_along(old(self).axis)[old(self).pos as int]
                && final(self).pos == old(self).pos + 1),
            old(self).pos >= old(self).frame.current().labels_along(old(self).axis).len() ==> r is None
                && final(self).pos == old(self).pos,
    {
        let n = match self.axis {
            Axis::Row => self.frame.index.len(),
            Axis::Column => self.frame.columns.len(),
        };
        if self.pos >= n {
            return None;
        }
        let l = match self.axis {
            Axis::Row => self.frame.index[self.pos].copied(),
            Axis::Column => self.frame.columns[self.pos].copied(),
        };
        self.pos = self.pos + 1;
        Some(l)
    }

    /// The number of cells of a line.
    pub fn line_len(&self) -> (r: usize)
        requires
            self.valid(),
        ensures
            r == self.frame.current().labels_across(self.axis).len(),
    {
        match self.axis {
            Axis::Row => self.frame.columns.len(),
            Axis::Column => self.frame.index.len(),
        }
    }

    /// Cell `k` of the line last yielded.
    pub fn get(&self, k: usize) -> (r: &Value)
        requires
            self.valid(),
            self.pos > 0,
            k < self.frame.current().labels_across(self.axis).len(),
        ensures
            r@ == self.frame.current().cells[Self::cell_at(self.axis, self.pos - 1, k as int).0][Self::cell_at(self.axis, self.pos - 1, k as int).1],
    {
        match self.axis {
            Axis::Row => self.frame.get(self.pos - 1, k),
            Axis::Column => self.frame.get(k, self.pos - 1),
        }
    }

    /// Overwrites cell `k` of the line last yielded with `v`.
    pub fn set(&mut self, k: usize, v: Value)
        requires
            old(self).valid(),
            old(self).pos > 0,
            k < old(self).frame.current().labels_across(old(self).axis).len(),
        ensures
            final(self).valid(),
            final(self).pos == old(self).pos,
            final(self).axis == old(self).axis,
            *final(final(self).frame.data) == *final(old(self).frame.data),
            final(self).frame.columns == old(self).frame.columns,
            final(self).frame.index == old(self).frame.index,
            ({
                let (i, j) = Self::cell_at(old(self).axis, old(self).pos - 1, k as int);
                final(self).frame.current() == (FrameView {
                    cells: old(self).frame.current().cells.update(i, old(self).frame.current().cells[i].update(j, v@)),
                    ..old(self).frame.current()
                })
            }),
    {
        match self.axis {
            Axis::Row => self.frame.set(self.pos - 1, k, v),
            Axis::Column => self.frame.set(k, self.pos - 1, v),
        }
    }

    /// The read-write frame, once walking is done.
    pub fn into_frame(self) -> (r: MutableDataFrame<'a>)
        ensures
            r == self.frame,
    {
        self.frame
    }
}

impl DataFrame {
    /// A read-write frame over this frame's cells.
    pub fn as_mutable(&mut self) -> (r: MutableDataFrame<'_>)
        requires
            old(self).wf(),
        ensures
            r.wf(),
            r.current() == old(self)@,
            r.columns.len() == old(self).columns.len(),
            r.index.len() == old(self).index.len(),
            final(self).columns == old(self).columns,
            final(self).index == old(self).index,
            final(self).data == *final(r.data),
    {
        let columns = copy_labels(&self.columns);
        let index = copy_labels(&self.index);
        MutableDataFrame { columns, data: &mut self.data, index }
    }

    /// The mutable axis iterator along `axis`.
    pub fn df_iter_mut(&mut self, axis: Axis) -> (r: MutableDataFrameIterator<'_>)
        requires
            old(self).wf(),
        ensures
            r.valid(),
            r.pos == 0,
            r.axis == axis,
            r.frame.current() == old(self)@,
            r.frame.columns.len() == old(self).columns.len(),
            r.frame.index.len() == old(self).index.len(),
            labels_view(r.other@) == old(self)@.labels_across(axis),
            final(self).columns == old(self).columns,
            final(self).index == old(self).index,
            final(self).data == *final(r.frame.data),
    {
        let other = match axis {
            Axis::Row => copy_labels(&self.columns),
            Axis::Column => copy_labels(&self.index),
        };
        let frame = self.as_mutable();
        MutableDataFrameIterator { frame, axis, pos: 0, other }
    }
}

} // verus!
