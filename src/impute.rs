//! Filling the missing cells of each row or column, in place, with a value
//! computed from that line's numbers.
use crate::aggregate::{numbers, numeric_values, sum_numbers, sum_of};
use crate::frame::{DataFrame, line_of};
use crate::value::{Axis, Value, ValueView};
use vstd::prelude::*;

verus! {

/// How the fill value of a line is chosen.
#[derive(Debug, Clone, PartialEq)]
pub enum ImputeStrategy {
    /// The mean of the line's numbers, rounded down to an integer.
    Mean,
    /// The lower median of the line's numbers.
    Median,
    /// The line's most frequent number; of equally frequent ones, the first.
    Mode,
    /// The given value.
    Constant(Value),
}

pub ghost enum StrategyView {
    Mean,
    Median,
    Mode,
    Constant(ValueView),
}

impl View for ImputeStrategy {
    type V = StrategyView;

    open spec fn view(&self) -> StrategyView {
        match self {
            ImputeStrategy::Mean => StrategyView::Mean,
            ImputeStrategy::Median => StrategyView::Median,
            ImputeStrategy::Mode => StrategyView::Mode,
            ImputeStrategy::Constant(v) => StrategyView::Constant(v@),
        }
    }
}

/// How many numbers of `s` satisfy `p` against `x`: below (`0`), at most
/// (`1`) or equal to (`2`) it.
pub open spec fn count_rel(s: Seq<int>, x: int, rel: int) -> nat
    decreases s.len(),
{
    if s.len() == 0 {
        0
    } else {
        let y = s.last();
        let hit = if rel == 0 { y < x } else if rel == 1 { y <= x } else { y == x };
        count_rel(s.drop_last(), x, rel) + if hit { 1nat } else { 0nat }
    }
}

/// `x` has rank `k` in `s`: fewer than `k + 1` numbers below it, more than
/// `k` at most it.
pub open spec fn has_rank(s: Seq<int>, x: int, k: int) -> bool {
    count_rel(s, x, 0) <= k && k < count_rel(s, x, 1)
}

/// Position `i` is the first of `s` whose number has the lower-median rank.
pub open spec fn is_median_at(s: Seq<int>, i: int) -> bool {
    &&& 0 <= i < s.len()
    &&& has_rank(s, s[i], (s.len() - 1) / 2)
    &&& forall|j: int| 0 <= j < i ==> !has_rank(s, #[trigger] s[j], (s.len() - 1) / 2)
}

/// Position `i` is the first of `s` whose number occurs most often.
pub open spec fn is_mode_at(s: Seq<int>, i: int) -> bool {
    &&& 0 <= i < s.len()
    &&& forall|j: int| 0 <= j < s.len() ==> count_rel(s, #[trigger] s[j], 2) <= count_rel(s, s[i], 2)
    &&& forall|j: int| 0 <= j < i ==> count_rel(s, #[trigger] s[j], 2) < count_rel(s, s[i], 2)
}

/// The lower median of `s`, if any.
pub open spec fn median_pick(s: Seq<int>) -> Option<ValueView> {
    if exists|i: int| is_median_at(s, i) {
        Some(ValueView::Int64(s[choose|i: int| is_median_at(s, i)] as i64))
    } else {
        None
    }
}

/// The most frequent number of `s`, if any.
pub open spec fn mode_pick(s: Seq<int>) -> Option<ValueView> {
    if exists|i: int| is_mode_at(s, i) {
        Some(ValueView::Int64(s[choose|i: int| is_mode_at(s, i)] as i64))
    } else {
        None
    }
}

/// The fill value of a line whose numbers are `s`; `None` where the strategy
/// has nothing to work on.
pub open spec fn fill_for(strategy: StrategyView, s: Seq<int>) -> Option<ValueView> {
    match strategy {
        StrategyView::Constant(v) => Some(v),
        StrategyView::Mean => if s.len() == 0 {
            None
        } else {
            Some(ValueView::Int64((sum_of(s) / (s.len() as int)) as i64))
        },
        StrategyView::Median => median_pick(s),
        StrategyView::Mode => mode_pick(s),
    }
}

/// The line through cell (`i`, `j`) along `axis`.
pub open spec fn line_through(axis: Axis, i: int, j: int) -> int {
    match axis {
        Axis::Row => i,
        Axis::Column => j,
    }
}

/// Cell (`i`, `j`) after imputation: a missing cell takes its line's fill
/// value, if there is one; every other cell stays.
pub open spec fn imputed_cell(cells: Seq<Seq<ValueView>>, strategy: StrategyView, axis: Axis, i: int, j: int) -> ValueView {
    let f = fill_for(strategy, numbers(line_of(cells, axis, line_through(axis, i, j))));
    if cells[i][j] is Missing && f is Some {
        f->Some_0
    } else {
        cells[i][j]
    }
}

/// All cells after imputation along `axis`.
pub open spec fn imputed(cells: Seq<Seq<ValueView>>, strategy: StrategyView, axis: Axis) -> Seq<Seq<ValueView>> {
    Seq::new(cells.len(), |i: int| Seq::new(cells[i].len(), |j: int| imputed_cell(cells, strategy, axis, i, j)))
}

fn count_numbers(nums: &Vec<i64>, x: i64, rel: u8) -> (r: usize)
    requires
        rel <= 2,
    ensures
        r == count_rel(nums@.map_values(|y: i64| y as int), x as int, rel as int),
{
    let ghost s = nums@.map_values(|y: i64| y as int);
    let mut c: usize = 0;
    let mut k: usize = 0;
    while k < nums.len()
        invariant
            k <= nums.len(),
            s == nums@.map_values(|y: i64| y as int),
            c == count_rel(s.subrange(0, k as int), x as int, rel as int),
            c <= k,
        decreases nums.len() - k,
    {
        assert(s.subrange(0, (k + 1) as int).drop_last() =~= s.subrange(0, k as int));
        let y = nums[k];
        let hit = if rel == 0 { y < x } else if rel == 1 { y <= x } else { y == x };
        if hit {
            c += 1;
        }
        k += 1;
    }
    assert(s.subrange(0, nums.len() as int) =~= s);
    c
}

/// The lower median of `nums`, if any.
fn median_of(nums: &Vec<i64>) -> (r: Option<Value>)
    ensures
        r matches Some(v) ==> median_pick(nums@.map_values(|y: i64| y as int)) == Some(v@),
        r is None ==> median_pick(nums@.map_values(|y: i64| y as int)) is None,
{
    let ghost s = nums@.map_values(|y: i64| y as int);
    if nums.len() == 0 {
        return None;
    }
    let k = (nums.len() - 1) / 2;
    let mut i: usize = 0;
    while i < nums.len()
        invariant
            i <= nums.len(),
            nums.len() > 0,
            k == (nums.len() - 1) / 2,
            s == nums@.map_values(|y: i64| y as int),
            forall|j: int| 0 <= j < i ==> !has_rank(s, #[trigger] s[j], (s.len() - 1) / 2),
        decreases nums.len() - i,
    {
        let below = count_numbers(nums, nums[i], 0);
        let upto = count_numbers(nums, nums[i], 1);
        if below <= k && k < upto {
            proof {
                assert(is_median_at(s, i as int));
                let c = choose|c: int| is_median_at(s, c);
                assert(c == i as int) by {
                    if c < i {
                        assert(!has_rank(s, s[c], (s.len() - 1) / 2));
                    } else if c > i {
                        assert(has_rank(s, s[i as int], (s.len() - 1) / 2));
                    }
                }
            }
            return Some(Value::Int64(nums[i]));
        }
        i += 1;
    }
    proof {
        assert(!exists|c: int| is_median_at(s, c)) by {
            if exists|c: int| is_median_at(s, c) {
                let c = choose|c: int| is_median_at(s, c);
                assert(!has_rank(s, s[c], (s.len() - 1) / 2));
            }
        }
    }
    None
}

/// The most frequent number of `nums` (the first of equally frequent ones), if any.
fn mode_of(nums: &Vec<i64>) -> (r: Option<Value>)
    ensures
        r matches Some(v) ==> mode_pick(nums@.map_values(|y: i64| y as int)) == Some(v@),
        r is None ==> mode_pick(nums@.map_values(|y: i64| y as int)) is None,
{
    let ghost s = nums@.map_values(|y: i64| y as int);
    if nums.len() == 0 {
        return None;
    }
    let mut best: usize = 0;
    let mut best_count = count_numbers(nums, nums[0], 2);
    let mut i: usize = 1;
    while i < nums.len()
        invariant
            1 <= i <= nums.len(),
            best < i,
            s == nums@.map_values(|y: i64| y as int),
            best_count == count_rel(s, s[best as int], 2),
            forall|j: int| 0 <= j < i ==> count_rel(s, #[trigger] s[j], 2) <= best_count,
            forall|j: int| 0 <= j < best ==> count_rel(s, #[trigger] s[j], 2) < best_count,
        decreases nums.len() - i,
    {
        let c = count_numbers(nums, nums[i], 2);
        if c > best_count {
            best = i;
            best_count = c;
        }
        i += 1;
    }
    proof {
        assert(is_mode_at(s, best as int));
        let c = choose|c: int| is_mode_at(s, c);
        assert(c == best as int) by {
            if c < best {
                assert(count_rel(s, s[c], 2) < best_count);
            } else if c > best {
                assert(count_rel(s, s[best as int], 2) < count_rel(s, s[c], 2));
            }
        }
    }
    Some(Value::Int64(nums[best]))
}

/// The mean of `nums` rounded down, where `nums` is not empty.
fn floor_mean(nums: &Vec<i64>) -> (r: i64)
    requires
        nums.len() > 0,
    ensures
        r as int == sum_of(nums@.map_values(|y: i64| y as int)) / (nums.len() as int),
{
    let ghost s = nums@.map_values(|y: i64| y as int);
    let total = sum_numbers(nums);
    let n = nums.len() as i128;
    proof {
        assert forall|i: int| 0 <= i < s.len() implies i64::MIN <= #[trigger] s[i] <= i64::MAX by {
            assert(s[i] == nums@[i] as int);
        }
        lemma_sum_bounds(s);
        assert(s.len() == nums.len());
    }
    let q: i128 = if total >= 0 {
        total / n
    } else {
        let m = -total;
        let d = m / n;
        let c = if m % n != 0 { d + 1 } else { d };
        proof {
            let (mi, ni, ci, ti, di) = (m as int, n as int, c as int, total as int, d as int);
            let ri = mi % ni;
            assert(mi == ni * di + ri && 0 <= ri < ni) by (nonlinear_arith)
                requires ni > 0, mi >= 0, di == mi / ni, ri == mi % ni;
            assert(-ci == ti / ni) by (nonlinear_arith)
                requires
                    mi == -ti,
                    ni > 0,
                    mi == ni * di + ri,
                    0 <= ri < ni,
                    ci == if ri != 0 { di + 1 } else { di };
        }
        -c
    };
    proof {
        let t = total as int;
        let nn = n as int;
        assert(i64::MIN <= t / nn <= i64::MAX) by (nonlinear_arith)
            requires
                nn > 0,
                nn * i64::MIN <= t <= nn * i64::MAX;
    }
    q as i64
}

proof fn lemma_sum_bounds(s: Seq<int>)
    requires
        forall|i: int| 0 <= i < s.len() ==> i64::MIN <= #[trigger] s[i] <= i64::MAX,
    ensures
        (s.len() as int) * i64::MIN <= sum_of(s) <= (s.len() as int) * i64::MAX,
    decreases s.len(),
{
    if s.len() > 0 {
        lemma_sum_bounds(s.drop_last());
        let n = s.len() as int;
        assert(n * i64::MIN == (n - 1) * i64::MIN + i64::MIN) by (nonlinear_arith);
        assert(n * i64::MAX == (n - 1) * i64::MAX + i64::MAX) by (nonlinear_arith);
    }
}

/// The fill value of a line whose numbers are `nums`.
fn fill_value(strategy: &ImputeStrategy, nums: &Vec<i64>) -> (r: Option<Value>)
    ensures
        r matches Some(v) ==> fill_for(strategy@, nums@.map_values(|y: i64| y as int)) == Some(v@),
        r is None ==> fill_for(strategy@, nums@.map_values(|y: i64| y as int)) is None,
{
    match strategy {
        ImputeStrategy::Constant(v) => Some(v.copied()),
        ImputeStrategy::Mean => {
            if nums.len() == 0 {
                None
            } else {
                Some(Value::Int64(floor_mean(nums)))
            }
        },
        ImputeStrategy::Median => median_of(nums),
        ImputeStrategy::Mode => mode_of(nums),
    }
}

impl DataFrame {
    /// Fills, in place, every missing cell of each row (`Axis::Row`) or
    /// column with that line's fill value under `strategy`. A line without a
    /// fill value (no numbers, for every strategy but `Constant`) is left as
    /// it is.
    pub fn impute(&mut self, strategy: ImputeStrategy, axis: Axis)
        requires
            old(self).wf(),
        ensures
            final(self).wf(),
            final(self)@.columns == old(self)@.columns,
            final(self)@.index == old(self)@.index,
            final(self)@.cells == imputed(old(self)@.cells, strategy@, axis),
    {
        let ghost orig = self@.cells;
        let (rows, cols) = self.data.shape();
        let lines = match axis {
            Axis::Row => rows,
            Axis::Column => cols,
        };
        let across = match axis {
            Axis::Row => cols,
            Axis::Column => rows,
        };
        let ghost want = imputed(orig, strategy@, axis);
        let mut k: usize = 0;
        while k < lines
            invariant
                self.wf(),
                self@.columns == old(self)@.columns,
                self@.index == old(self)@.index,
                orig == old(self)@.cells,
                want == imputed(orig, strategy@, axis),
                rows == orig.len(),
                cols == self.columns.len(),
                forall|i: int| 0 <= i < rows ==> #[trigger] orig[i].len() == cols,
                lines == (match axis { Axis::Row => rows, Axis::Column => cols }),
                across == (match axis { Axis::Row => cols, Axis::Column => rows }),
                k <= lines,
                self@.cells.len() == rows,
                forall|i: int, j: int| 0 <= i < rows && 0 <= j < cols ==> #[trigger] self@.cells[i][j]
                    == if line_through(axis, i, j) < k { want[i][j] } else { orig[i][j] },
            decreases lines - k,
        {
            let nums = {
                let view = self.line(axis, k);
                proof {
                    match axis {
                        Axis::Row => {
                            assert forall|j: int| 0 <= j < cols implies #[trigger] self@.cells[k as int][j] == orig[k as int][j] by {
                                assert(self@.cells[k as int][j] == if line_through(axis, k as int, j) < k { want[k as int][j] } else { orig[k as int][j] });
                            }
                            assert(self@.cells[k as int] =~= orig[k as int]);
                        },
                        Axis::Column => {
                            assert forall|i: int| 0 <= i < rows implies #[trigger] self@.cells[i][k as int] == orig[i][k as int] by {
                                assert(self@.cells[i][k as int] == if line_through(axis, i, k as int) < k { want[i][k as int] } else { orig[i][k as int] });
                            }
                        },
                    }
                    assert(view.values() =~= line_of(orig, axis, k as int));
                }
                numeric_values(&view)
            };
            let fill = fill_value(&strategy, &nums);
            let mut t: usize = 0;
            while t < across
                invariant
                    self.wf(),
                    self@.columns == old(self)@.columns,
                    self@.index == old(self)@.index,
                    orig == old(self)@.cells,
                    want == imputed(orig, strategy@, axis),
                    rows == orig.len(),
                    cols == self.columns.len(),
                    forall|i: int| 0 <= i < rows ==> #[trigger] orig[i].len() == cols,
                    lines == (match axis { Axis::Row => rows, Axis::Column => cols }),
                    across == (match axis { Axis::Row => cols, Axis::Column => rows }),
                    k < lines,
                    t <= across,
                    self@.cells.len() == rows,
                    fill matches Some(v) ==> fill_for(strategy@, numbers(line_of(orig, axis, k as int))) == Some(v@),
                    fill is None ==> fill_for(strategy@, numbers(line_of(orig, axis, k as int))) is None,
                    forall|i: int, j: int| 0 <= i < rows && 0 <= j < cols ==> #[trigger] self@.cells[i][j]
                        == if line_through(axis, i, j) < k || (line_through(axis, i, j) == k
                            && line_through(axis, j, i) < t) { want[i][j] } else { orig[i][j] },
                decreases across - t,
            {
                let (i, j): (usize, usize) = match axis {
                    Axis::Row => (k, t),
                    Axis::Column => (t, k),
                };
                let ghost before = self@.cells;
                let missing = self.data.get(i, j).is_missing();
                match &fill {
                    Some(v) => {
                        if missing {
                            self.data.set(i, j, v.copied());
                        }
                    },
                    None => {},
                }
                proof {
                    assert(line_through(axis, i as int, j as int) == k);
                    assert(line_through(axis, j as int, i as int) == t);
                    assert(before[i as int][j as int] == orig[i as int][j as int]);
                    assert(want[i as int][j as int] == imputed_cell(orig, strategy@, axis, i as int, j as int));
                    assert(self@.cells[i as int][j as int] == want[i as int][j as int]);
                    assert forall|a: int, b: int| 0 <= a < rows && 0 <= b < cols && (a != i || b != j) implies
                        #[trigger] self@.cells[a][b] == before[a][b] by {}
                }
                t += 1;
            }
            k += 1;
        }
        proof {
            assert forall|i: int| 0 <= i < rows implies #[trigger] self@.cells[i] =~= want[i] by {}
            assert(self@.cells =~= want);
        }
    }
}

} // verus!
