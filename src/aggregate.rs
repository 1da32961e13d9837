//! Reductions of each row or column to one scalar: sum, mean, maximum and
//! minimum, all of which skip missing and non-numeric cells.
use crate::frame::{AxisView, DataFrame};
use crate::label::Label;
use crate::value::{Axis, Value, ValueView, num_of};
use vstd::prelude::*;

verus! {

/// The numbers of a line, in order: missing and non-numeric cells skipped.
pub open spec fn numbers(s: Seq<ValueView>) -> Seq<int>
    decreases s.len(),
{
    if s.len() == 0 {
        Seq::empty()
    } else {
        let head = numbers(s.drop_last());
        match num_of(s.last()) {
            Some(x) => head.push(x),
            None => head,
        }
    }
}

pub open spec fn sum_of(s: Seq<int>) -> int
    decreases s.len(),
{
    if s.len() == 0 {
        0
    } else {
        sum_of(s.drop_last()) + s.last()
    }
}

/// The first cell of `s` holding the largest (`largest`) or smallest number,
/// or `Missing` where `s` holds no number.
pub open spec fn extreme(s: Seq<ValueView>, largest: bool) -> ValueView
    decreases s.len(),
{
    if s.len() == 0 {
        ValueView::Missing
    } else {
        let prev = extreme(s.drop_last(), largest);
        let x = s.last();
        match (num_of(x), num_of(prev)) {
            (None, _) => prev,
            (Some(_), None) => x,
            (Some(a), Some(b)) => if (largest && a > b) || (!largest && a < b) { x } else { prev },
        }
    }
}

/// An exact fraction `num / den`.
#[derive(Debug, Clone, Copy, PartialEq, Eq, Structural)]
pub struct Ratio {
    pub num: i128,
    pub den: u64,
}

/// The mean of a line's numbers as an exact fraction over their count, or
/// `None` where the line holds no number.
pub open spec fn mean_of(s: Seq<ValueView>) -> Option<(int, int)> {
    if numbers(s).len() == 0 {
        None
    } else {
        Some((sum_of(numbers(s)), numbers(s).len() as int))
    }
}

pub open spec fn ratio_view(r: Option<Ratio>) -> Option<(int, int)> {
    match r {
        Some(q) => Some((q.num as int, q.den as int)),
        None => None,
    }
}

/// The numbers of a line, in order.
pub fn numeric_values(v: &AxisView) -> (r: Vec<i64>)
    requires
        v.valid(),
    ensures
        r@.map_values(|x: i64| x as int) == numbers(v.values()),
{
    let n = v.len();
    let mut out: Vec<i64> = Vec::new();
    let mut k: usize = 0;
    while k < n
        invariant
            v.valid(),
            n == v.values().len(),
            k <= n,
            out@.map_values(|x: i64| x as int) =~= numbers(v.values().subrange(0, k as int)),
        decreases n - k,
    {
        let ghost s = v.values().subrange(0, (k + 1) as int);
        assert(s.drop_last() =~= v.values().subrange(0, k as int));
        let ghost before = out@.map_values(|x: i64| x as int);
        match v.get(k).as_number() {
            Some(x) => {
                out.push(x);
                assert(out@.map_values(|x: i64| x as int) =~= before.push(x as int));
            },
            None => {},
        }
        k += 1;
    }
    assert(v.values().subrange(0, n as int) =~= v.values());
    out
}

/// The exact sum of `nums`.
pub fn sum_numbers(nums: &Vec<i64>) -> (r: i128)
    ensures
        r == sum_of(nums@.map_values(|x: i64| x as int)),
{
    let mut total: i128 = 0;
    let mut k: usize = 0;
    while k < nums.len()
        invariant
            k <= nums.len(),
            total == sum_of(nums@.map_values(|x: i64| x as int).subrange(0, k as int)),
            -(k as int) * 0x8000_0000_0000_0000 <= total <= (k as int) * 0x7fff_ffff_ffff_ffff,
        decreases nums.len() - k,
    {
        let ghost s = nums@.map_values(|x: i64| x as int);
        assert(s.subrange(0, (k + 1) as int).drop_last() =~= s.subrange(0, k as int));
        let x = nums[k];
        proof {
            assert(k < 0x1_0000_0000_0000_0000);
            assert(-((k + 1) as int) * 0x8000_0000_0000_0000 <= total + x <= ((k + 1) as int) * 0x7fff_ffff_ffff_ffff) by (nonlinear_arith)
                requires
                    -(k as int) * 0x8000_0000_0000_0000 <= total <= (k as int) * 0x7fff_ffff_ffff_ffff,
                    -0x8000_0000_0000_0000 <= x <= 0x7fff_ffff_ffff_ffff;
            assert(-((k + 1) as int) * 0x8000_0000_0000_0000 >= -0x8000_0000_0000_0000_0000_0000_0000_0000) by (nonlinear_arith)
                requires k < 0x1_0000_0000_0000_0000;
            assert(((k + 1) as int) * 0x7fff_ffff_ffff_ffff <= 0x7fff_ffff_ffff_ffff_ffff_ffff_ffff_ffff) by (nonlinear_arith)
                requires k < 0x1_0000_0000_0000_0000;
        }
        total = total + x as i128;
        k += 1;
    }
    assert(nums@.map_values(|x: i64| x as int).subrange(0, nums.len() as int) =~= nums@.map_values(|x: i64| x as int));
    total
}

/// The sum of a line's numbers (0 where it holds none).
pub fn sum_line(v: &AxisView) -> (r: i128)
    requires
        v.valid(),
    ensures
        r == sum_of(numbers(v.values())),
{
    let nums = numeric_values(v);
    sum_numbers(&nums)
}

/// The mean of a line's numbers, or `None` where it holds none.
pub fn mean_line(v: &AxisView) -> (r: Option<Ratio>)
    requires
        v.valid(),
    ensures
        ratio_view(r) == mean_of(v.values()),
{
    let nums = numeric_values(v);
    if nums.len() == 0 {
        assert(numbers(v.values()).len() == 0);
        return None;
    }
    let total = sum_numbers(&nums);
    assert(nums@.map_values(|x: i64| x as int).len() == nums.len());
    Some(Ratio { num: total, den: nums.len() as u64 })
}

/// The first cell holding the largest (`largest`) or smallest number of a
/// line, or `Missing`.
pub fn extreme_line(v: &AxisView, largest: bool) -> (r: Value)
    requires
        v.valid(),
    ensures
        r@ == extreme(v.values(), largest),
{
    let n = v.len();
    let mut best = Value::Missing;
    let mut best_num: Option<i64> = None;
    let mut k: usize = 0;
    while k < n
        invariant
            v.valid(),
            n == v.values().len(),
            k <= n,
            best@ == extreme(v.values().subrange(0, k as int), largest),
            best_num matches Some(b) ==> num_of(best@) == Some(b as int),
            best_num is None ==> num_of(best@) is None,
        decreases n - k,
    {
        let ghost s = v.values().subrange(0, (k + 1) as int);
        assert(s.drop_last() =~= v.values().subrange(0, k as int));
        let c = v.get(k);
        match c.as_number() {
            Some(a) => {
                let better = match best_num {
                    None => true,
                    Some(b) => (largest && a > b) || (!largest && a < b),
                };
                if better {
                    best = c.copied();
                    best_num = Some(a);
                }
            },
            None => {},
        }
        k += 1;
    }
    assert(v.values().subrange(0, n as int) =~= v.values());
    best
}

impl DataFrame {
    /// The sum of the numbers of each row (`Axis::Row`) or column, with its label.
    pub fn sumdf(&self, axis: Axis) -> (r: Vec<(Label, i128)>)
        requires
            self.wf(),
        ensures
            r.len() == self@.entries(axis).len(),
            forall|k: int| 0 <= k < r.len() ==> (#[trigger] r@[k]).0@ == self@.entries(axis)[k].0
                && r@[k].1 == sum_of(numbers(self@.entries(axis)[k].1)),
    {
        let mut out: Vec<(Label, i128)> = Vec::new();
        let mut it = self.df_iter(axis);
        let ghost all = self@.entries(axis);
        while it.remaining() > 0
            invariant
                it.valid(),
                it.frame == self,
                it.axis == axis,
                all == self@.entries(axis),
                it.pos == out.len(),
                it.rest() == all.subrange(it.pos as int, all.len() as int),
                forall|k: int| 0 <= k < out.len() ==> (#[trigger] out@[k]).0@ == all[k].0 && out@[k].1 == sum_of(numbers(all[k].1)),
            decreases it.rest().len(),
        {
            let ghost s = it.rest();
            match it.next() {
                Some((l, v)) => {
                    let x = sum_line(&v);
                    out.push((l, x));
                    assert(it.rest() =~= all.subrange(it.pos as int, all.len() as int));
                },
                None => {},
            }
        }
        assert(out.len() == all.len());
        out
    }

    /// The mean of the numbers of each row or column, with its label; `None`
    /// where a line holds no number.
    pub fn mean(&self, axis: Axis) -> (r: Vec<(Label, Option<Ratio>)>)
        requires
            self.wf(),
        ensures
            r.len() == self@.entries(axis).len(),
            forall|k: int| 0 <= k < r.len() ==> (#[trigger] r@[k]).0@ == self@.entries(axis)[k].0
                && ratio_view(r@[k].1) == mean_of(self@.entries(axis)[k].1),
    {
        let mut out: Vec<(Label, Option<Ratio>)> = Vec::new();
        let mut it = self.df_iter(axis);
        let ghost all = self@.entries(axis);
        while it.remaining() > 0
            invariant
                it.valid(),
                it.frame == self,
                it.axis == axis,
                all == self@.entries(axis),
                it.pos == out.len(),
                it.rest() == all.subrange(it.pos as int, all.len() as int),
                forall|k: int| 0 <= k < out.len() ==> (#[trigger] out@[k]).0@ == all[k].0 && ratio_view(out@[k].1) == mean_of(all[k].1),
            decreases it.rest().len(),
        {
            match it.next() {
                Some((l, v)) => {
                    let x = mean_line(&v);
                    out.push((l, x));
                    assert(it.rest() =~= all.subrange(it.pos as int, all.len() as int));
                },
                None => {},
            }
        }
        assert(out.len() == all.len());
        out
    }

    /// The first cell holding the largest number of each row or column, with
    /// its label; `Missing` where a line holds no number.
    pub fn maxdf(&self, axis: Axis) -> (r: Vec<(Label, Value)>)
        requires
            self.wf(),
        ensures
            r.len() == self@.entries(axis).len(),
            forall|k: int| 0 <= k < r.len() ==> (#[trigger] r@[k]).0@ == self@.entries(axis)[k].0
                && r@[k].1@ == extreme(self@.entries(axis)[k].1, true),
    {
        self.extremes(axis, true)
    }

    /// The first cell holding the smallest number of each row or column, with
    /// its label; `Missing` where a line holds no number.
    pub fn min(&self, axis: Axis) -> (r: Vec<(Label, Value)>)
        requires
            self.wf(),
        ensures
            r.len() == self@.entries(axis).len(),
            forall|k: int| 0 <= k < r.len() ==> (#[trigger] r@[k]).0@ == self@.entries(axis)[k].0
                && r@[k].1@ == extreme(self@.entries(axis)[k].1, false),
    {
        self.extremes(axis, false)
    }

    fn extremes(&self, axis: Axis, largest: bool) -> (r: Vec<(Label, Value)>)
        requires
            self.wf(),
        ensures
            r.len() == self@.entries(axis).len(),
            forall|k: int| 0 <= k < r.len() ==> (#[trigger] r@[k]).0@ == self@.entries(axis)[k].0
                && r@[k].1@ == extreme(self@.entries(axis)[k].1, largest),
    {
        let mut out: Vec<(Label, Value)> = Vec::new();
        let mut it = self.df_iter(axis);
        let ghost all = self@.entries(axis);
        while it.remaining() > 0
            invariant
                it.valid(),
                it.frame == self,
                it.axis == axis,
                all == self@.entries(axis),
                it.pos == out.len(),
                it.rest() == all.subrange(it.pos as int, all.len() as int),
                forall|k: int| 0 <= k < out.len() ==> (#[trigger] out@[k]).0@ == all[k].0 && out@[k].1@ == extreme(all[k].1, largest),
            decreases it.rest().len(),
        {
            match it.next() {
                Some((l, v)) => {
                    let x = extreme_line(&v, largest);
                    out.push((l, x));
                    assert(it.rest() =~= all.subrange(it.pos as int, all.len() as int));
                },
                None => {},
            }
        }
        assert(out.len() == all.len());
        out
    }
}

} // verus!
