//! Joins of two frames on their row labels. The driving frame's rows are
//! walked in order; each is matched with the first row of the other frame
//! that carries the same label.
use crate::frame::{DataFrame, DataFrameIterator, Entry, assemble, collected, copy_labels, drained};
use crate::label::{Label, LabelView, labels_view, rename_against, renamed_labels};
use crate::matrix::values_view;
use crate::value::{Axis, FrameError, Value, ValueView};
use crate::frame::FrameView;
use vstd::prelude::*;

verus! {

/// `k` is the first position of `l` in `s`.
pub open spec fn is_first(s: Seq<LabelView>, l: LabelView, k: int) -> bool {
    &&& 0 <= k < s.len()
    &&& s[k] == l
    &&& forall|j: int| 0 <= j < k ==> s[j] != l
}

/// The first position of `l` in `s`, if any.
pub open spec fn lookup(s: Seq<LabelView>, l: LabelView) -> Option<int> {
    if exists|k: int| is_first(s, l, k) {
        Some(choose|k: int| is_first(s, l, k))
    } else {
        None
    }
}

/// `n` missing cells.
pub open spec fn missing_line(n: nat) -> Seq<ValueView> {
    Seq::new(n, |i: int| ValueView::Missing)
}

/// The joined rows of the driving rows `s` against `right`: each driving row
/// followed by the cells of the first row of `right` with its label; where
/// there is none, an outer join fills with missing cells and an inner join
/// drops the row.
pub open spec fn join_rows(s: Seq<Entry>, right: FrameView, outer: bool) -> Seq<Entry>
    decreases s.len(),
{
    if s.len() == 0 {
        Seq::empty()
    } else {
        let tail = join_rows(s.drop_first(), right, outer);
        match lookup(right.index, s[0].0) {
            Some(j) => seq![(s[0].0, s[0].1 + right.cells[j])] + tail,
            None => if outer {
                seq![(s[0].0, s[0].1 + missing_line(right.columns.len()))] + tail
            } else {
                tail
            },
        }
    }
}

/// The column labels of a join: the driving frame's, then the other frame's
/// renamed by the `_x` rule where they collide.
pub open spec fn joined_columns(left: FrameView, right: FrameView) -> Seq<LabelView> {
    left.columns + renamed_labels(left.columns, right.columns)
}

/// The first row of `frame` labelled `l`.
pub fn find_row(frame: &DataFrame, l: &Label) -> (r: Option<usize>)
    ensures
        r matches Some(k) ==> lookup(frame@.index, l@) == Some(k as int),
        r is None ==> lookup(frame@.index, l@) is None,
{
    let mut k: usize = 0;
    while k < frame.index.len()
        invariant
            k <= frame.index.len(),
            forall|j: int| 0 <= j < k ==> frame@.index[j] != l@,
        decreases frame.index.len() - k,
    {
        if frame.index[k].equals(l) {
            proof {
                assert(is_first(frame@.index, l@, k as int));
                let c = choose|c: int| is_first(frame@.index, l@, c);
                assert(c == k as int) by {
                    if c < k {
                    } else if c > k {
                        assert(frame@.index[k as int] == l@);
                    }
                }
            }
            return Some(k);
        }
        k += 1;
    }
    None
}

/// The driving row `line` followed by row `j` of `right`, or by missing
/// cells where `j` is `None`.
fn joined_line(line: Vec<Value>, right: &DataFrame, j: Option<usize>) -> (r: Vec<Value>)
    requires
        right.wf(),
        j matches Some(k) ==> k < right.index.len(),
    ensures
        values_view(r@) == values_view(line@) + match j {
            Some(k) => right@.cells[k as int],
            None => missing_line(right.columns.len() as nat),
        },
{
    let mut out = line;
    let ghost start = values_view(out@);
    let n = right.columns.len();
    let mut c: usize = 0;
    while c < n
        invariant
            right.wf(),
            n == right.columns.len(),
            j matches Some(k) ==> k < right.index.len(),
            c <= n,
            values_view(out@) =~= start + match j {
                Some(k) => right@.cells[k as int].subrange(0, c as int),
                None => missing_line(c as nat),
            },
        decreases n - c,
    {
        let ghost before = values_view(out@);
        let v = match j {
            Some(k) => right.data.get(k, c).copied(),
            None => Value::Missing,
        };
        out.push(v);
        proof {
            assert(values_view(out@) =~= before.push(v@));
            match j {
                Some(k) => {
                    assert(right@.cells[k as int].subrange(0, c + 1) =~= right@.cells[k as int].subrange(0, c as int).push(v@));
                },
                None => {
                    assert(missing_line((c + 1) as nat) =~= missing_line(c as nat).push(v@));
                },
            }
        }
        c += 1;
    }
    proof {
        match j {
            Some(k) => {
                assert(right@.cells[k as int].subrange(0, n as int) =~= right@.cells[k as int]);
            },
            None => {},
        }
    }
    out
}

/// The next joined row of `left` against `right`.
fn next_joined<'a>(left: &mut DataFrameIterator<'a>, right: &DataFrame, outer: bool) -> (r: Option<(Label, Vec<Value>)>)
    requires
        old(left).valid(),
        right.wf(),
    ensures
        final(left).valid(),
        final(left).frame == old(left).frame,
        final(left).axis == old(left).axis,
        ({
            let f = join_rows(old(left).rest(), right@, outer);
            &&& f.len() == 0 ==> r is None && join_rows(final(left).rest(), right@, outer) == f
            &&& f.len() > 0 ==> (r matches Some((l, row)) && (l@, values_view(row@)) == f[0]
                && join_rows(final(left).rest(), right@, outer) == f.drop_first())
        }),
{
    let ghost f = join_rows(left.rest(), right@, outer);
    loop
        invariant
            left.valid(),
            right.wf(),
            left.frame == old(left).frame,
            left.axis == old(left).axis,
            f == join_rows(old(left).rest(), right@, outer),
            f == join_rows(left.rest(), right@, outer),
        decreases left.rest().len(),
    {
        let ghost s = left.rest();
        match left.next() {
            None => {
                return None;
            },
            Some((l, v)) => {
                assert(s.drop_first() == left.rest());
                let j = find_row(right, &l);
                if j.is_some() || outer {
                    let row = joined_line(v.to_vec(), right, j);
                    return Some((l, row));
                }
            },
        }
    }
}

/// Labels and joined rows of everything `left` still yields against `right`.
fn drain_joined<'a>(left: &mut DataFrameIterator<'a>, right: &DataFrame, outer: bool) -> (r: (Vec<Label>, Vec<Vec<Value>>))
    requires
        old(left).valid(),
        right.wf(),
    ensures
        r.0.len() == r.1.len(),
        drained(r.0@, r.1@) == join_rows(old(left).rest(), right@, outer),
{
    let mut labels: Vec<Label> = Vec::new();
    let mut lines: Vec<Vec<Value>> = Vec::new();
    let ghost whole = join_rows(left.rest(), right@, outer);
    loop
        invariant
            left.valid(),
            right.wf(),
            labels.len() == lines.len(),
            whole == join_rows(old(left).rest(), right@, outer),
            whole == drained(labels@, lines@) + join_rows(left.rest(), right@, outer),
        decreases join_rows(left.rest(), right@, outer).len(),
    {
        let ghost before = drained(labels@, lines@);
        let ghost f = join_rows(left.rest(), right@, outer);
        match next_joined(left, right, outer) {
            Some((l, row)) => {
                let ghost e = (l@, values_view(row@));
                labels.push(l);
                lines.push(row);
                assert(drained(labels@, lines@) =~= before.push(e));
                assert(whole =~= drained(labels@, lines@) + join_rows(left.rest(), right@, outer));
            },
            None => {
                assert(f.len() == 0);
                assert(drained(labels@, lines@) =~= whole);
                return (labels, lines);
            },
        }
    }
}

/// Every row of the driving frame whose label the other frame also has,
/// joined with the other frame's first row of that label.
pub struct InnerJoin<'a> {
    pub left: DataFrameIterator<'a>,
    pub right: &'a DataFrame,
    pub columns: Vec<Label>,
}

/// Every row of the driving frame, joined with the other frame's first row
/// of the same label, or with missing cells where it has none.
pub struct OuterJoin<'a> {
    pub left: DataFrameIterator<'a>,
    pub right: &'a DataFrame,
    pub columns: Vec<Label>,
}

impl<'a> InnerJoin<'a> {
    pub open spec fn valid(&self) -> bool {
        self.left.valid() && self.right.wf()
    }

    /// What is still to be yielded.
    pub open spec fn rest(&self) -> Seq<Entry> {
        join_rows(self.left.rest(), self.right@, false)
    }

    /// The next joined row.
    pub fn next(&mut self) -> (r: Option<(Label, Vec<Value>)>)
        requires
            old(self).valid(),
        ensures
            final(self).valid(),
            final(self).columns == old(self).columns,
            old(self).rest().len() == 0 ==> r is None && final(self).rest() == old(self).rest(),
            old(self).rest().len() > 0 ==> (r matches Some((l, row))
                && (l@, values_view(row@)) == old(self).rest()[0]
                && final(self).rest() == old(self).rest().drop_first()),
    {
        next_joined(&mut self.left, self.right, false)
    }

    /// A new frame from the joined rows still to be yielded.
    pub fn collect(self) -> (r: Result<DataFrame, FrameError>)
        requires
            self.valid(),
        ensures
            collected(Axis::Row, self.rest(), labels_view(self.columns@), r),
    {
        let columns = copy_labels(&self.columns);
        let mut left = self.left;
        let (labels, lines) = drain_joined(&mut left, self.right, false);
        assemble(Axis::Row, labels, lines, columns)
    }
}

impl<'a> OuterJoin<'a> {
    pub open spec fn valid(&self) -> bool {
        self.left.valid() && self.right.wf()
    }

    /// What is still to be yielded.
    pub open spec fn rest(&self) -> Seq<Entry> {
        join_rows(self.left.rest(), self.right@, true)
    }

    /// The next joined row.
    pub fn next(&mut self) -> (r: Option<(Label, Vec<Value>)>)
        requires
            old(self).valid(),
        ensures
            final(self).valid(),
            final(self).columns == old(self).columns,
            old(self).rest().len() == 0 ==> r is None && final(self).rest() == old(self).rest(),
            old(self).rest().len() > 0 ==> (r matches Some((l, row))
                && (l@, values_view(row@)) == old(self).rest()[0]
                && final(self).rest() == old(self).rest().drop_first()),
    {
        next_joined(&mut self.left, self.right, true)
    }

    /// A new frame from the joined rows still to be yielded.
    pub fn collect(self) -> (r: Result<DataFrame, FrameError>)
        requires
            self.valid(),
        ensures
            collected(Axis::Row, self.rest(), labels_view(self.columns@), r),
    {
        let columns = copy_labels(&self.columns);
        let mut left = self.left;
        let (labels, lines) = drain_joined(&mut left, self.right, true);
        assemble(Axis::Row, labels, lines, columns)
    }
}

/// The column labels of `left` joined with `right`.
fn join_columns(left: &DataFrame, right: &DataFrame) -> (r: Vec<Label>)
    ensures
        labels_view(r@) == joined_columns(left@, right@),
{
    let mut cols = copy_labels(&left.columns);
    let renamed = rename_against(&left.columns, &right.columns);
    let mut k: usize = 0;
    let ghost start = labels_view(cols@);
    while k < renamed.len()
        invariant
            k <= renamed.len(),
            labels_view(cols@) =~= start + labels_view(renamed@).subrange(0, k as int),
        decreases renamed.len() - k,
    {
        let ghost before = labels_view(cols@);
        cols.push(renamed[k].copied());
        assert(labels_view(cols@) =~= before.push(renamed@[k as int]@));
        k += 1;
    }
    assert(labels_view(renamed@).subrange(0, renamed.len() as int) =~= labels_view(renamed@));
    cols
}

impl DataFrame {
    /// Rows of this frame whose label `other` also has, each followed by the
    /// cells of `other`'s first row of that label.
    pub fn inner_left_join<'a>(&'a self, other: &'a DataFrame) -> (r: InnerJoin<'a>)
        requires
            self.wf(),
            other.wf(),
        ensures
            r.valid(),
            r.rest() == join_rows(self@.entries(Axis::Row), other@, false),
            labels_view(r.columns@) == joined_columns(self@, other@),
    {
        InnerJoin { left: self.df_iter(Axis::Row), right: other, columns: join_columns(self, other) }
    }

    /// Every row of this frame, followed by the cells of `other`'s first row
    /// of the same label, or by missing cells.
    pub fn outer_left_join<'a>(&'a self, other: &'a DataFrame) -> (r: OuterJoin<'a>)
        requires
            self.wf(),
            other.wf(),
        ensures
            r.valid(),
            r.rest() == join_rows(self@.entries(Axis::Row), other@, true),
            labels_view(r.columns@) == joined_columns(self@, other@),
    {
        OuterJoin { left: self.df_iter(Axis::Row), right: other, columns: join_columns(self, other) }
    }

    /// Rows of `other` whose label this frame also has, each followed by the
    /// cells of this frame's first row of that label.
    pub fn inner_right_join<'a>(&'a self, other: &'a DataFrame) -> (r: InnerJoin<'a>)
        requires
            self.wf(),
            other.wf(),
        ensures
            r.valid(),
            r.rest() == join_rows(other@.entries(Axis::Row), self@, false),
            labels_view(r.columns@) == joined_columns(other@, self@),
    {
        InnerJoin { left: other.df_iter(Axis::Row), right: self, columns: join_columns(other, self) }
    }

    /// Every row of `other`, followed by the cells of this frame's first row
    /// of the same label, or by missing cells.
    pub fn outer_right_join<'a>(&'a self, other: &'a DataFrame) -> (r: OuterJoin<'a>)
        requires
            self.wf(),
            other.wf(),
        ensures
            r.valid(),
            r.rest() == join_rows(other@.entries(Axis::Row), self@, true),
            labels_view(r.columns@) == joined_columns(other@, self@),
    {
        OuterJoin { left: other.df_iter(Axis::Row), right: self, columns: join_columns(other, self) }
    }
}

} // verus!
