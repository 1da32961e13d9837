//! Lazy transform adapters over an axis iterator: select, remove, append and
//! concat. Each yields (label, line) pairs on demand and collects into a new
//! frame.
use crate::frame::{
    AxisView, DataFrame, DataFrameIterator, Entry, LineSource, assemble, collected, copy_labels,
    drain,
};
use crate::label::{Label, LabelView, contains_label, labels_view, rename_against, renamed_labels};
use crate::value::{Axis, FrameError, Value, ValueView};
use vstd::prelude::*;

verus! {

/// The entries of `s` whose label is (`keep`) or is not (`!keep`) among
/// `names`, in their order.
pub open spec fn filtered(s: Seq<Entry>, names: Seq<LabelView>, keep: bool) -> Seq<Entry>
    decreases s.len(),
{
    if s.len() == 0 {
        Seq::empty()
    } else if names.contains(s[0].0) == keep {
        seq![s[0]] + filtered(s.drop_first(), names, keep)
    } else {
        filtered(s.drop_first(), names, keep)
    }
}

/// `s` with its labels replaced, position by position, by `labels`.
pub open spec fn relabelled(s: Seq<Entry>, labels: Seq<LabelView>) -> Seq<Entry> {
    Seq::new(s.len(), |k: int| (labels[k], s[k].1))
}

/// The next pair of `inner` whose label is (`keep`) or is not (`!keep`)
/// among `names`.
fn next_filtered<'a>(inner: &mut DataFrameIterator<'a>, names: &Vec<Label>, keep: bool) -> (r: Option<(Label, AxisView<'a>)>)
    requires
        old(inner).valid(),
    ensures
        final(inner).valid(),
        final(inner).axis == old(inner).axis,
        final(inner).frame == old(inner).frame,
        ({
            let f = filtered(old(inner).rest(), labels_view(names@), keep);
            &&& f.len() == 0 ==> r is None && filtered(final(inner).rest(), labels_view(names@), keep) == f
            &&& f.len() > 0 ==> (r matches Some((l, v)) && v.valid() && (l@, v.values()) == f[0]
                && filtered(final(inner).rest(), labels_view(names@), keep) == f.drop_first())
        }),
{
    let ghost f = filtered(inner.rest(), labels_view(names@), keep);
    loop
        invariant
            inner.valid(),
            inner.axis == old(inner).axis,
            inner.frame == old(inner).frame,
            f == filtered(old(inner).rest(), labels_view(names@), keep),
            f == filtered(inner.rest(), labels_view(names@), keep),
        decreases inner.rest().len(),
    {
        let ghost s = inner.rest();
        match inner.next() {
            None => {
                return None;
            },
            Some((l, v)) => {
                assert(s.drop_first() == inner.rest());
                if contains_label(names, &l) == keep {
                    return Some((l, v));
                }
            },
        }
    }
}

/// Yields the pairs of an axis iterator whose label is among the target
/// labels, in iterator order.
pub struct Select<'a> {
    pub inner: DataFrameIterator<'a>,
    pub names: Vec<Label>,
    pub other: Vec<Label>,
    pub axis: Axis,
}

impl<'a> LineSource<'a> for Select<'a> {
    open spec fn valid(&self) -> bool {
        self.inner.valid()
    }

    open spec fn rest(&self) -> Seq<Entry> {
        filtered(self.inner.rest(), labels_view(self.names@), true)
    }

    fn next_line(&mut self) -> (r: Option<(Label, AxisView<'a>)>) {
        next_filtered(&mut self.inner, &self.names, true)
    }
}

impl<'a> Select<'a> {
    /// A new frame from the selected pairs.
    pub fn collect(self) -> (r: Result<DataFrame, FrameError>)
        requires
            self.inner.valid(),
        ensures
            collected(self.axis, self.rest(), labels_view(self.other@), r),
    {
        let axis = self.axis;
        let other = copy_labels(&self.other);
        let mut it = self;
        let (labels, lines) = drain(&mut it);
        assemble(axis, labels, lines, other)
    }
}

/// Yields the pairs of an axis iterator whose label is not among the target
/// labels, in iterator order.
pub struct Remove<'a> {
    pub inner: DataFrameIterator<'a>,
    pub names: Vec<Label>,
    pub other: Vec<Label>,
    pub axis: Axis,
}

impl<'a> LineSource<'a> for Remove<'a> {
    open spec fn valid(&self) -> bool {
        self.inner.valid()
    }

    open spec fn rest(&self) -> Seq<Entry> {
        filtered(self.inner.rest(), labels_view(self.names@), false)
    }

    fn next_line(&mut self) -> (r: Option<(Label, AxisView<'a>)>) {
        next_filtered(&mut self.inner, &self.names, false)
    }
}

impl<'a> Remove<'a> {
    /// A new frame from the pairs that remain.
    pub fn collect(self) -> (r: Result<DataFrame, FrameError>)
        requires
            self.inner.valid(),
        ensures
            collected(self.axis, self.rest(), labels_view(self.other@), r),
    {
        let axis = self.axis;
        let other = copy_labels(&self.other);
        let mut it = self;
        let (labels, lines) = drain(&mut it);
        assemble(axis, labels, lines, other)
    }
}

/// Yields the pairs of an axis iterator, then one more pair.
pub struct Append<'a> {
    pub inner: DataFrameIterator<'a>,
    pub extra: Option<(Label, AxisView<'a>)>,
    pub other: Vec<Label>,
    pub axis: Axis,
}

/// The appended pair, if it has not been yielded yet.
pub open spec fn pending(extra: Option<(Label, AxisView)>) -> Seq<Entry> {
    match extra {
        Some((l, v)) => seq![(l@, v.values())],
        None => Seq::empty(),
    }
}

impl<'a> LineSource<'a> for Append<'a> {
    open spec fn valid(&self) -> bool {
        &&& self.inner.valid()
        &&& self.extra matches Some((l, v)) ==> v.valid()
    }

    open spec fn rest(&self) -> Seq<Entry> {
        self.inner.rest() + pending(self.extra)
    }

    fn next_line(&mut self) -> (r: Option<(Label, AxisView<'a>)>) {
        let ghost s = self.rest();
        match self.inner.next() {
            Some(p) => {
                assert(self.rest() =~= s.drop_first());
                Some(p)
            },
            None => {
                let r = self.extra.take();
                proof {
                    if s.len() > 0 {
                        assert(self.rest() =~= s.drop_first());
                    } else {
                        assert(self.rest() =~= s);
                    }
                }
                r
            },
        }
    }
}

impl<'a> Append<'a> {
    /// A new frame: the frame's own lines, then the appended one.
    pub fn collect(self) -> (r: Result<DataFrame, FrameError>)
        requires
            self.valid(),
        ensures
            collected(self.axis, self.rest(), labels_view(self.other@), r),
    {
        let axis = self.axis;
        let other = copy_labels(&self.other);
        let mut it = self;
        let (labels, lines) = drain(&mut it);
        assemble(axis, labels, lines, other)
    }
}

/// Yields every pair of a first axis iterator, then every pair of a second
/// one, whose labels are renamed by the `_x` rule where they collide.
pub struct Concat<'a> {
    pub first: DataFrameIterator<'a>,
    pub second: DataFrameIterator<'a>,
    pub second_labels: Vec<Label>,
    pub other: Vec<Label>,
    pub axis: Axis,
}

impl<'a> LineSource<'a> for Concat<'a> {
    open spec fn valid(&self) -> bool {
        &&& self.first.valid()
        &&& self.second.valid()
        &&& self.second_labels.len() == self.second.frame@.labels_along(self.second.axis).len()
    }

    open spec fn rest(&self) -> Seq<Entry> {
        self.first.rest() + relabelled(
            self.second.rest(),
            labels_view(self.second_labels@).subrange(self.second.pos as int, self.second_labels.len() as int),
        )
    }

    fn next_line(&mut self) -> (r: Option<(Label, AxisView<'a>)>) {
        let ghost s = self.rest();
        match self.first.next() {
            Some(p) => {
                assert(self.rest() =~= s.drop_first());
                Some(p)
            },
            None => {
                let k = self.second.pos;
                match self.second.next() {
                    Some((_, v)) => {
                        let l = self.second_labels[k].copied();
                        assert(self.rest() =~= s.drop_first());
                        Some((l, v))
                    },
                    None => {
                        assert(self.rest() =~= s);
                        None
                    },
                }
            },
        }
    }
}

impl<'a> Concat<'a> {
    /// A new frame: the lines of the first frame, then those of the second.
    pub fn collect(self) -> (r: Result<DataFrame, FrameError>)
        requires
            self.valid(),
        ensures
            collected(self.axis, self.rest(), labels_view(self.other@), r),
    {
        let axis = self.axis;
        let other = copy_labels(&self.other);
        let mut it = self;
        let (labels, lines) = drain(&mut it);
        assemble(axis, labels, lines, other)
    }
}

impl DataFrame {
    /// The rows (`Axis::Row`) or columns (`Axis::Column`) whose label is
    /// among `names`, lazily, in frame order. Names that match nothing are
    /// ignored.
    pub fn select(&self, names: Vec<Label>, axis: Axis) -> (r: Select<'_>)
        requires
            self.wf(),
        ensures
            r.valid(),
            r.rest() == filtered(self@.entries(axis), labels_view(names@), true),
            labels_view(r.other@) == self@.labels_across(axis),
            r.axis == axis,
    {
        let inner = self.df_iter(axis);
        let other = copy_labels(&inner.other);
        Select { inner, names, other, axis }
    }

    /// The rows or columns whose label is not among `names`, lazily, in
    /// frame order. Names that match nothing are ignored.
    pub fn remove(&self, names: Vec<Label>, axis: Axis) -> (r: Remove<'_>)
        requires
            self.wf(),
        ensures
            r.valid(),
            r.rest() == filtered(self@.entries(axis), labels_view(names@), false),
            labels_view(r.other@) == self@.labels_across(axis),
            r.axis == axis,
    {
        let inner = self.df_iter(axis);
        let other = copy_labels(&inner.other);
        Remove { inner, names, other, axis }
    }

    /// Every row or column, lazily, followed by `data` under the label `name`.
    pub fn append<'a>(&'a self, name: Label, data: AxisView<'a>, axis: Axis) -> (r: Append<'a>)
        requires
            self.wf(),
            data.valid(),
        ensures
            r.valid(),
            r.rest() == self@.entries(axis).push((name@, data.values())),
            labels_view(r.other@) == self@.labels_across(axis),
            r.axis == axis,
    {
        let inner = self.df_iter(axis);
        let other = copy_labels(&inner.other);
        let r = Append { inner, extra: Some((name, data)), other, axis };
        assert(r.rest() =~= self@.entries(axis).push((name@, data.values())));
        r
    }

    /// The rows (`Axis::Row`) or columns (`Axis::Column`) of this frame, then
    /// those of `other`, lazily. The labels across are this frame's; a label
    /// of `other` along `axis` that collides is renamed by the `_x` rule.
    pub fn concat<'a>(&'a self, other: &'a DataFrame, axis: Axis) -> (r: Concat<'a>)
        requires
            self.wf(),
            other.wf(),
        ensures
            r.valid(),
            r.rest() == self@.entries(axis) + relabelled(
                other@.entries(axis),
                renamed_labels(self@.labels_along(axis), other@.labels_along(axis)),
            ),
            labels_view(r.other@) == self@.labels_across(axis),
            r.axis == axis,
    {
        let first = self.df_iter(axis);
        let second = other.df_iter(axis);
        let second_labels = match axis {
            Axis::Row => rename_against(&self.index, &other.index),
            Axis::Column => rename_against(&self.columns, &other.columns),
        };
        let across = copy_labels(&first.other);
        let r = Concat { first, second, second_labels, other: across, axis };
        proof {
            let rl = renamed_labels(self@.labels_along(axis), other@.labels_along(axis));
            lemma_renamed_len(self@.labels_along(axis), other@.labels_along(axis));
            assert(labels_view(r.second_labels@).len() == r.second_labels.len());
            assert(r.second_labels.len() == other@.labels_along(axis).len());
            assert(labels_view(r.second_labels@).subrange(0, r.second_labels.len() as int) =~= rl);
            assert(r.second.rest() =~= other@.entries(axis));
            assert(r.rest() =~= self@.entries(axis) + relabelled(other@.entries(axis), rl));
        }
        r
    }
}

/// `y` is what `f` may return for a cell whose content is `cell`.
pub open spec fn mapped_by<B, F: Fn(&Value) -> B>(f: F, cell: ValueView, y: B) -> bool {
    exists|w: &Value| w@ == cell && f.ensures((w,), y)
}

impl DataFrame {
    /// Applies `f` to every cell, line by line along `axis`; each line's
    /// results come with its label.
    pub fn map<B, F: Fn(&Value) -> B>(&self, f: F, axis: Axis) -> (r: Vec<(Label, Vec<B>)>)
        requires
            self.wf(),
            forall|v: &Value| #[trigger] f.requires((v,)),
        ensures
            r.len() == self@.entries(axis).len(),
            forall|k: int| 0 <= k < r.len() ==> (#[trigger] r@[k]).0@ == self@.entries(axis)[k].0
                && r@[k].1.len() == self@.entries(axis)[k].1.len()
                && forall|t: int| 0 <= t < r@[k].1.len() ==> mapped_by(f, self@.entries(axis)[k].1[t], #[trigger] r@[k].1@[t]),
    {
        let mut out: Vec<(Label, Vec<B>)> = Vec::new();
        let mut it = self.df_iter(axis);
        let ghost all = self@.entries(axis);
        while it.remaining() > 0
            invariant
                it.valid(),
                it.frame == self,
                it.axis == axis,
                all == self@.entries(axis),
                it.pos == out.len(),
                it.rest() == all.subrange(it.pos as int, all.len() as int),
                forall|v: &Value| #[trigger] f.requires((v,)),
                forall|k: int| 0 <= k < out.len() ==> (#[trigger] out@[k]).0@ == all[k].0
                    && out@[k].1.len() == all[k].1.len()
                    && forall|t: int| 0 <= t < out@[k].1.len() ==> mapped_by(f, all[k].1[t], #[trigger] out@[k].1@[t]),
            decreases it.rest().len(),
        {
            let ghost s0 = it.rest();
            match it.next() {
                Some((l, v)) => {
                    assert(s0[0] == all[out.len() as int]);
                    let n = v.len();
                    let mut line: Vec<B> = Vec::new();
                    let mut t: usize = 0;
                    while t < n
                        invariant
                            v.valid(),
                            n == v.values().len(),
                            t <= n,
                            line.len() == t,
                            it.valid(),
                            it.frame == self,
                            it.axis == axis,
                            all == self@.entries(axis),
                            it.pos == out.len() + 1,
                            it.rest() == all.subrange(it.pos as int, all.len() as int),
                            (l@, v.values()) == all[out.len() as int],
                            forall|k: int| 0 <= k < out.len() ==> (#[trigger] out@[k]).0@ == all[k].0
                                && out@[k].1.len() == all[k].1.len()
                                && forall|t: int| 0 <= t < out@[k].1.len() ==> mapped_by(f, all[k].1[t], #[trigger] out@[k].1@[t]),
                            forall|w: &Value| #[trigger] f.requires((w,)),
                            forall|q: int| 0 <= q < t ==> mapped_by(f, v.values()[q], #[trigger] line@[q]),
                        decreases n - t,
                    {
                        let cell = v.get(t);
                        let y = f(cell);
                        let ghost before = line@;
                        line.push(y);
                        proof {
                            assert(cell@ == v.values()[t as int] && f.ensures((cell,), line@[t as int]));
                            assert(mapped_by(f, v.values()[t as int], line@[t as int]));
                            assert forall|q: int| 0 <= q < t + 1 implies mapped_by(f, v.values()[q], #[trigger] line@[q]) by {
                                if q < t {
                                    assert(line@[q] == before[q]);
                                }
                            }
                        }
                        t += 1;
                    }
                    let ghost out_before = out@;
                    out.push((l, line));
                    assert(it.rest() =~= all.subrange(it.pos as int, all.len() as int));
                    assert forall|k: int| 0 <= k < out.len() implies (#[trigger] out@[k]).0@ == all[k].0
                        && out@[k].1.len() == all[k].1.len()
                        && forall|t: int| 0 <= t < out@[k].1.len() ==> mapped_by(f, all[k].1[t], #[trigger] out@[k].1@[t]) by {
                        if k < out.len() - 1 {
                            assert(out@[k] == out_before[k]);
                        }
                    }
                },
                None => {},
            }
        }
        assert(out.len() == all.len());
        out
    }
}

/// Renaming keeps the number of labels.
pub proof fn lemma_renamed_len(used: Seq<LabelView>, second: Seq<LabelView>)
    ensures
        renamed_labels(used, second).len() == second.len(),
    decreases second.len(),
{
    if second.len() > 0 {
        let l = crate::label::fresh_label(second[0], used);
        lemma_renamed_len(used.push(l), second.drop_first());
    }
}

} // verus!
