//! Laws that relate the operations of the library, proved over their models.
use crate::aggregate::{extreme, mean_of, numbers, sum_of};
use crate::frame::{Entry, FrameView, line_of};
use crate::impute::{StrategyView, fill_for, imputed, imputed_cell, line_through, median_pick, mode_pick};
use crate::join::{join_rows, lookup, is_first};
use crate::label::{LabelView, fresh_label, fresh_within, label_text, renamed_labels, suffixed};
use crate::transform::filtered;
use crate::value::{Axis, ValueView};
use vstd::prelude::*;

verus! {

/// The labels of a sequence of entries.
pub open spec fn entry_labels(s: Seq<Entry>) -> Seq<LabelView> {
    s.map_values(|e: Entry| e.0)
}

proof fn lemma_filtered_labels(s: Seq<Entry>, names: Seq<LabelView>, keep: bool, l: LabelView)
    ensures
        entry_labels(filtered(s, names, keep)).contains(l)
            <==> (entry_labels(s).contains(l) && names.contains(l) == keep),
    decreases s.len(),
{
    if s.len() > 0 {
        lemma_filtered_labels(s.drop_first(), names, keep, l);
        let rest = filtered(s.drop_first(), names, keep);
        assert(entry_labels(s) =~= seq![s[0].0] + entry_labels(s.drop_first()));
        if names.contains(s[0].0) == keep {
            assert(entry_labels(filtered(s, names, keep)) =~= seq![s[0].0] + entry_labels(rest));
        }
        if entry_labels(s).contains(l) && l != s[0].0 {
            let k = choose|k: int| 0 <= k < entry_labels(s).len() && entry_labels(s)[k] == l;
            assert(entry_labels(s.drop_first())[k - 1] == l);
        }
        if entry_labels(filtered(s, names, keep)).contains(l) && names.contains(s[0].0) == keep && l != s[0].0 {
            let k = choose|k: int| 0 <= k < entry_labels(filtered(s, names, keep)).len() && entry_labels(filtered(s, names, keep))[k] == l;
            assert(entry_labels(rest)[k - 1] == l);
        }
        if entry_labels(s.drop_first()).contains(l) {
            let k = choose|k: int| 0 <= k < entry_labels(s.drop_first()).len() && entry_labels(s.drop_first())[k] == l;
            assert(entry_labels(s)[k + 1] == l);
        }
        if entry_labels(rest).contains(l) && names.contains(s[0].0) == keep {
            let k = choose|k: int| 0 <= k < entry_labels(rest).len() && entry_labels(rest)[k] == l;
            assert(entry_labels(filtered(s, names, keep))[k + 1] == l);
        }
        if names.contains(s[0].0) == keep {
            assert(entry_labels(filtered(s, names, keep))[0] == s[0].0);
        }
        assert(entry_labels(s)[0] == s[0].0);
    }
}

/// Selecting and removing the same labels split a frame's lines along an
/// axis: every label of the frame is kept by exactly one of the two, and
/// neither yields a label the frame lacks.
pub proof fn law_select_remove_partition(f: FrameView, names: Seq<LabelView>, axis: Axis)
    ensures
        forall|l: LabelView| f.labels_along(axis).contains(l) <==> (
            entry_labels(filtered(f.entries(axis), names, true)).contains(l)
            || entry_labels(filtered(f.entries(axis), names, false)).contains(l)),
        forall|l: LabelView| !(entry_labels(filtered(f.entries(axis), names, true)).contains(l)
            && entry_labels(filtered(f.entries(axis), names, false)).contains(l)),
{
    assert(entry_labels(f.entries(axis)) =~= f.labels_along(axis));
    assert forall|l: LabelView| f.labels_along(axis).contains(l) <==> (
        entry_labels(filtered(f.entries(axis), names, true)).contains(l)
        || entry_labels(filtered(f.entries(axis), names, false)).contains(l)) by {
        lemma_filtered_labels(f.entries(axis), names, true, l);
        lemma_filtered_labels(f.entries(axis), names, false, l);
    }
    assert forall|l: LabelView| !(entry_labels(filtered(f.entries(axis), names, true)).contains(l)
        && entry_labels(filtered(f.entries(axis), names, false)).contains(l)) by {
        lemma_filtered_labels(f.entries(axis), names, true, l);
        lemma_filtered_labels(f.entries(axis), names, false, l);
    }
}

proof fn lemma_numbers_skip(s: Seq<ValueView>, i: int)
    requires
        0 <= i < s.len(),
        s[i] is Missing,
    ensures
        numbers(s.remove(i)) == numbers(s),
    decreases s.len(),
{
    if i == s.len() - 1 {
        assert(s.remove(i) =~= s.drop_last());
    } else {
        lemma_numbers_skip(s.drop_last(), i);
        assert(s.remove(i).drop_last() =~= s.drop_last().remove(i));
        assert(s.remove(i).last() == s.last());
    }
}

/// Missing cells do not count: dropping one from a line changes neither the
/// numbers the aggregates see, nor the sum, the mean, the maximum or the
/// minimum.
pub proof fn law_missing_is_skipped(s: Seq<ValueView>, i: int)
    requires
        0 <= i < s.len(),
        s[i] is Missing,
    ensures
        numbers(s.remove(i)) == numbers(s),
        sum_of(numbers(s.remove(i))) == sum_of(numbers(s)),
        mean_of(s.remove(i)) == mean_of(s),
        extreme(s.remove(i), true) == extreme(s, true),
        extreme(s.remove(i), false) == extreme(s, false),
{
    lemma_numbers_skip(s, i);
    lemma_extreme_skip(s, i, true);
    lemma_extreme_skip(s, i, false);
}

proof fn lemma_extreme_skip(s: Seq<ValueView>, i: int, largest: bool)
    requires
        0 <= i < s.len(),
        s[i] is Missing,
    ensures
        extreme(s.remove(i), largest) == extreme(s, largest),
    decreases s.len(),
{
    if i == s.len() - 1 {
        assert(s.remove(i) =~= s.drop_last());
    } else {
        lemma_extreme_skip(s.drop_last(), i, largest);
        assert(s.remove(i).drop_last() =~= s.drop_last().remove(i));
        assert(s.remove(i).last() == s.last());
    }
}

/// A line with no cell but missing ones sums to zero and has no mean, no
/// maximum and no minimum.
pub proof fn law_all_missing(s: Seq<ValueView>)
    requires
        forall|i: int| 0 <= i < s.len() ==> #[trigger] s[i] is Missing,
    ensures
        numbers(s).len() == 0,
        sum_of(numbers(s)) == 0,
        mean_of(s) is None,
        extreme(s, true) is Missing,
        extreme(s, false) is Missing,
    decreases s.len(),
{
    if s.len() > 0 {
        law_all_missing(s.drop_last());
    }
}

/// Imputing a second time along the same axis with the same strategy
/// changes nothing.
pub proof fn law_impute_idempotent(cells: Seq<Seq<ValueView>>, width: nat, strategy: StrategyView, axis: Axis)
    requires
        forall|i: int| 0 <= i < cells.len() ==> #[trigger] cells[i].len() == width,
    ensures
        imputed(imputed(cells, strategy, axis), strategy, axis) == imputed(cells, strategy, axis),
{
    let once = imputed(cells, strategy, axis);
    let twice = imputed(once, strategy, axis);
    assert forall|i: int, j: int| 0 <= i < cells.len() && 0 <= j < width implies
        #[trigger] twice[i][j] == once[i][j] by {
        let k = line_through(axis, i, j);
        let f = fill_for(strategy, numbers(line_of(cells, axis, k)));
        let g = fill_for(strategy, numbers(line_of(once, axis, k)));
        assert(once[i][j] == imputed_cell(cells, strategy, axis, i, j));
        assert(twice[i][j] == imputed_cell(once, strategy, axis, i, j));
        if f is None {
            match axis {
                Axis::Row => {
                    assert forall|t: int| 0 <= t < width implies #[trigger] once[i][t] == cells[i][t] by {
                        assert(once[i][t] == imputed_cell(cells, strategy, axis, i, t));
                    }
                    assert(line_of(once, axis, k) =~= line_of(cells, axis, k));
                },
                Axis::Column => {
                    assert forall|t: int| 0 <= t < cells.len() implies #[trigger] once[t][j] == cells[t][j] by {
                        assert(once[t][j] == imputed_cell(cells, strategy, axis, t, j));
                    }
                    assert(line_of(once, axis, k) =~= line_of(cells, axis, k));
                },
            }
        } else if f == Some(ValueView::Missing) {
            match strategy {
                StrategyView::Constant(v) => {},
                StrategyView::Mean => {},
                StrategyView::Median => {
                    assert(median_pick(numbers(line_of(cells, axis, k))) != Some(ValueView::Missing));
                },
                StrategyView::Mode => {
                    assert(mode_pick(numbers(line_of(cells, axis, k))) != Some(ValueView::Missing));
                },
            }
        }
    }
    assert forall|i: int| 0 <= i < cells.len() implies #[trigger] twice[i] =~= once[i] by {}
    assert(twice =~= once);
}

/// An outer join yields exactly one row per row of the driving frame; an
/// inner join yields at most that many, and, where the driving frame's row
/// labels are distinct, at most as many as the other frame has rows.
pub proof fn law_join_cardinality(left: FrameView, right: FrameView)
    ensures
        join_rows(left.entries(Axis::Row), right, true).len() == left.index.len(),
        join_rows(left.entries(Axis::Row), right, false).len() <= left.index.len(),
        left.index.no_duplicates() ==> join_rows(left.entries(Axis::Row), right, false).len() <= right.index.len(),
{
    let s = left.entries(Axis::Row);
    lemma_outer_len(s, right);
    lemma_inner_len(s, right);
    if left.index.no_duplicates() {
        assert(entry_labels(s) =~= left.index);
        lemma_inner_labels(s, right);
        let out = entry_labels(join_rows(s, right, false));
        out.unique_seq_to_set();
        right.index.lemma_cardinality_of_set();
        assert(out.to_set().subset_of(right.index.to_set())) by {
            assert forall|l: LabelView| out.to_set().contains(l) implies right.index.to_set().contains(l) by {
                assert(out.contains(l));
            }
        }
        vstd::set_lib::lemma_len_subset(out.to_set(), right.index.to_set());
    }
}

proof fn lemma_outer_len(s: Seq<Entry>, right: FrameView)
    ensures
        join_rows(s, right, true).len() == s.len(),
    decreases s.len(),
{
    if s.len() > 0 {
        lemma_outer_len(s.drop_first(), right);
    }
}

proof fn lemma_inner_len(s: Seq<Entry>, right: FrameView)
    ensures
        join_rows(s, right, false).len() <= s.len(),
    decreases s.len(),
{
    if s.len() > 0 {
        lemma_inner_len(s.drop_first(), right);
    }
}

/// The labels an inner join yields are labels of the other frame, each
/// taken from the driving rows, and distinct where the driving labels are.
proof fn lemma_inner_labels(s: Seq<Entry>, right: FrameView)
    ensures
        forall|l: LabelView| entry_labels(join_rows(s, right, false)).contains(l)
            ==> right.index.contains(l) && entry_labels(s).contains(l),
        entry_labels(s).no_duplicates() ==> entry_labels(join_rows(s, right, false)).no_duplicates(),
    decreases s.len(),
{
    if s.len() > 0 {
        let rest = s.drop_first();
        lemma_inner_labels(rest, right);
        let tail = join_rows(rest, right, false);
        assert(entry_labels(s) =~= seq![s[0].0] + entry_labels(rest));
        assert forall|l: LabelView| entry_labels(rest).contains(l) implies entry_labels(s).contains(l) by {
            let k = choose|k: int| 0 <= k < entry_labels(rest).len() && entry_labels(rest)[k] == l;
            assert(entry_labels(s)[k + 1] == l);
        }
        match lookup(right.index, s[0].0) {
            Some(j) => {
                let out = join_rows(s, right, false);
                assert(out == seq![(s[0].0, s[0].1 + right.cells[j])] + tail);
                assert(entry_labels(out) =~= seq![s[0].0] + entry_labels(tail));
                assert(is_first(right.index, s[0].0, j));
                assert(right.index[j] == s[0].0);
                assert forall|l: LabelView| entry_labels(out).contains(l)
                    implies right.index.contains(l) && entry_labels(s).contains(l) by {
                    let k = choose|k: int| 0 <= k < entry_labels(out).len() && entry_labels(out)[k] == l;
                    if k == 0 {
                        assert(entry_labels(s)[0] == l);
                    } else {
                        assert(entry_labels(tail)[k - 1] == l);
                    }
                }
                if entry_labels(s).no_duplicates() {
                    assert(entry_labels(rest).no_duplicates()) by {
                        assert forall|a: int, b: int| 0 <= a < b < entry_labels(rest).len() implies
                            entry_labels(rest)[a] != entry_labels(rest)[b] by {
                            assert(entry_labels(s)[a + 1] == entry_labels(rest)[a]);
                            assert(entry_labels(s)[b + 1] == entry_labels(rest)[b]);
                        }
                    }
                    assert(!entry_labels(tail).contains(s[0].0)) by {
                        if entry_labels(tail).contains(s[0].0) {
                            assert(entry_labels(rest).contains(s[0].0));
                            let k = choose|k: int| 0 <= k < entry_labels(rest).len() && entry_labels(rest)[k] == s[0].0;
                            assert(entry_labels(s)[k + 1] == entry_labels(rest)[k]);
                            assert(entry_labels(s)[0] == s[0].0);
                        }
                    }
                    assert forall|a: int, b: int| 0 <= a < b < entry_labels(out).len() implies
                        entry_labels(out)[a] != entry_labels(out)[b] by {
                        if a == 0 {
                            assert(entry_labels(tail)[b - 1] == entry_labels(out)[b]);
                        } else {
                            assert(entry_labels(tail)[a - 1] == entry_labels(out)[a]);
                            assert(entry_labels(tail)[b - 1] == entry_labels(out)[b]);
                        }
                    }
                }
            },
            None => {
                if entry_labels(s).no_duplicates() {
                    assert forall|a: int, b: int| 0 <= a < b < entry_labels(rest).len() implies
                        entry_labels(rest)[a] != entry_labels(rest)[b] by {
                        assert(entry_labels(s)[a + 1] == entry_labels(rest)[a]);
                        assert(entry_labels(s)[b + 1] == entry_labels(rest)[b]);
                    }
                }
            },
        }
    }
}

/// `l` renamed `i` times by the collision rule.
pub open spec fn suffixed_times(l: LabelView, i: nat) -> LabelView
    decreases i,
{
    if i == 0 {
        l
    } else {
        suffixed(suffixed_times(l, (i - 1) as nat))
    }
}

proof fn lemma_suffixed_times_text(l: LabelView, i: nat)
    ensures
        label_text(suffixed_times(l, i)).len() == label_text(l).len() + 2 * i,
    decreases i,
{
    if i > 0 {
        lemma_suffixed_times_text(l, (i - 1) as nat);
    }
}

proof fn lemma_suffixed_times_shift(l: LabelView, i: nat)
    ensures
        suffixed_times(suffixed(l), i) == suffixed_times(l, i + 1),
    decreases i,
{
    if i > 0 {
        lemma_suffixed_times_shift(l, (i - 1) as nat);
        assert(suffixed_times(suffixed(l), i) == suffixed(suffixed_times(suffixed(l), (i - 1) as nat)));
        assert(suffixed_times(l, i + 1) == suffixed(suffixed_times(l, i)));
    } else {
        assert(suffixed_times(l, 1) == suffixed(suffixed_times(l, 0)));
    }
}

/// At most `used.len()` of the renamings of `l` can be among `used`.
proof fn lemma_renamings_fit(l: LabelView, used: Seq<LabelView>, k: nat)
    requires
        forall|i: nat| i <= k ==> used.contains(#[trigger] suffixed_times(l, i)),
    ensures
        k + 1 <= used.len(),
{
    let cands = Seq::new(k + 1, |i: int| suffixed_times(l, i as nat));
    assert(cands.no_duplicates()) by {
        assert forall|a: int, b: int| 0 <= a < b < cands.len() implies cands[a] != cands[b] by {
            lemma_suffixed_times_text(l, a as nat);
            lemma_suffixed_times_text(l, b as nat);
        }
    }
    cands.unique_seq_to_set();
    used.lemma_cardinality_of_set();
    assert(cands.to_set().subset_of(used.to_set())) by {
        assert forall|x: LabelView| cands.to_set().contains(x) implies used.to_set().contains(x) by {
            let i = choose|i: int| 0 <= i < cands.len() && cands[i] == x;
            assert(used.contains(suffixed_times(l, i as nat)));
        }
    }
    vstd::set_lib::lemma_len_subset(cands.to_set(), used.to_set());
}

proof fn lemma_fresh_within_unused(l: LabelView, used: Seq<LabelView>, m: nat, fuel: nat)
    requires
        m + fuel == used.len() + 1,
        forall|i: nat| i < m ==> used.contains(#[trigger] suffixed_times(l, i)),
    ensures
        !used.contains(fresh_within(suffixed_times(l, m), used, fuel)),
    decreases fuel,
{
    let c = suffixed_times(l, m);
    if used.contains(c) {
        if fuel == 0 {
            lemma_renamings_fit(l, used, m);
        } else {
            lemma_suffixed_times_shift(l, m);
            assert(suffixed(c) == suffixed_times(l, m + 1));
            lemma_fresh_within_unused(l, used, m + 1, (fuel - 1) as nat);
        }
    }
}

/// The collision rule always ends on a label that is not among `used`.
pub proof fn law_fresh_label_unused(l: LabelView, used: Seq<LabelView>)
    ensures
        !used.contains(fresh_label(l, used)),
{
    lemma_fresh_within_unused(l, used, 0, used.len() + 1);
}

/// Joining or concatenating never overwrites a label: the renamed labels of
/// the second frame differ from every label of the first and from one
/// another.
pub proof fn law_renamed_labels_distinct(used: Seq<LabelView>, second: Seq<LabelView>)
    ensures
        forall|k: int| 0 <= k < renamed_labels(used, second).len()
            ==> !used.contains(#[trigger] renamed_labels(used, second)[k]),
        renamed_labels(used, second).no_duplicates(),
    decreases second.len(),
{
    if second.len() > 0 {
        let l = fresh_label(second[0], used);
        let rest = renamed_labels(used.push(l), second.drop_first());
        law_fresh_label_unused(second[0], used);
        law_renamed_labels_distinct(used.push(l), second.drop_first());
        let r = renamed_labels(used, second);
        assert(r == seq![l] + rest);
        assert forall|k: int| 0 <= k < r.len() implies !used.contains(#[trigger] r[k]) by {
            if k > 0 {
                assert(r[k] == rest[k - 1]);
                if used.contains(r[k]) {
                    let j = choose|j: int| 0 <= j < used.len() && used[j] == r[k];
                    assert(used.push(l)[j] == r[k]);
                }
            }
        }
        assert forall|a: int, b: int| 0 <= a < b < r.len() implies r[a] != r[b] by {
            assert(r[b] == rest[b - 1]);
            if a == 0 {
                assert(used.push(l)[used.len() as int] == l);
            } else {
                assert(r[a] == rest[a - 1]);
            }
        }
    }
}

/// A column label of the other frame that collides with one of the driving
/// frame takes the `_x` suffix, unless that name is taken too.
pub proof fn law_collision_renamed(l: LabelView, used: Seq<LabelView>)
    requires
        used.contains(l),
        !used.contains(suffixed(l)),
    ensures
        fresh_label(l, used) == suffixed(l),
        fresh_label(l, used) != l,
{
    assert(fresh_label(l, used) == fresh_within(suffixed(l), used, used.len()));
    if used.len() > 0 {
        assert(fresh_within(suffixed(l), used, used.len()) == suffixed(l));
    }
    assert(suffixed(l) != l);
}

} // verus!
