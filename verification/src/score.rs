//! The score evaluator: the record of manual pre-run cell edits, and the
//! qualification rules that rank a finished run against a pool of earlier
//! runs with the same seed and the same number of edits.

use vstd::prelude::*;

use crate::game::{lemma_toggle_cellule_pair, toggled, Cellule};

verus! {

/// A manual toggle of one grid cell, made before the run started.
#[derive(Clone, Copy, PartialEq, Eq, Structural, Debug)]
pub struct GridModification {
    pub step_index: i32,
    pub grid_index: i32,
}

/// Whether some record of `s` concerns the cell at `idx`.
pub open spec fn contains_index(s: Seq<GridModification>, idx: i32) -> bool {
    exists|i: int| 0 <= i < s.len() && s[i].grid_index == idx
}

/// `s` with every record concerning the cell at `idx` removed.
pub open spec fn without_index(s: Seq<GridModification>, idx: i32) -> Seq<GridModification>
    decreases s.len(),
{
    if s.len() == 0 {
        Seq::empty()
    } else {
        let rest = without_index(s.drop_last(), idx);
        if s.last().grid_index == idx {
            rest
        } else {
            rest.push(s.last())
        }
    }
}

/// The modification list after one toggle of the cell at `idx`: an existing
/// record for that cell cancels out, otherwise a new record is appended.
pub open spec fn modifications_toggled(
    s: Seq<GridModification>,
    step_index: i32,
    idx: i32,
) -> Seq<GridModification> {
    if contains_index(s, idx) {
        without_index(s, idx)
    } else {
        s.push(GridModification { step_index, grid_index: idx })
    }
}

/// Removing records of a cell that has none leaves the list unchanged.
pub proof fn lemma_without_index_absent(s: Seq<GridModification>, idx: i32)
    requires
        !contains_index(s, idx),
    ensures
        without_index(s, idx) == s,
    decreases s.len(),
{
    if s.len() > 0 {
        assert(forall|i: int| 0 <= i < s.len() - 1 ==> s.drop_last()[i] == s[i]);
        lemma_without_index_absent(s.drop_last(), idx);
        assert(without_index(s, idx) =~= s);
    } else {
        assert(without_index(s, idx) =~= s);
    }
}

/// Records a manual toggle of the cell at `grid_index`: cancels the existing
/// record for that cell if there is one, otherwise appends a new record
/// carrying the step at which the toggle happened.
pub fn toggle_modification(
    modifications: &mut Vec<GridModification>,
    step_index: i32,
    grid_index: i32,
)
    ensures
        final(modifications)@ == modifications_toggled(old(modifications)@, step_index, grid_index),
{
    let mut found: bool = false;
    let mut i: usize = 0;
    while i < modifications.len()
        invariant
            0 <= i <= modifications@.len(),
            found == exists|j: int| 0 <= j < i && modifications@[j].grid_index == grid_index,
        decreases modifications@.len() - i,
    {
        if modifications[i].grid_index == grid_index {
            found = true;
        }
        i = i + 1;
    }
    if found {
        let mut kept: Vec<GridModification> = Vec::new();
        let mut j: usize = 0;
        while j < modifications.len()
            invariant
                0 <= j <= modifications@.len(),
                kept@ == without_index(modifications@.take(j as int), grid_index),
            decreases modifications@.len() - j,
        {
            proof {
                assert(modifications@.take(j + 1).drop_last() =~= modifications@.take(j as int));
                assert(modifications@.take(j + 1).last() == modifications@[j as int]);
            }
            let record: GridModification = modifications[j];
            if record.grid_index != grid_index {
                kept.push(record);
            }
            j = j + 1;
        }
        proof {
            assert(modifications@.take(modifications@.len() as int) =~= modifications@);
        }
        *modifications = kept;
    } else {
        modifications.push(GridModification { step_index, grid_index });
    }
}

/// Toggling the same cell twice, starting from a list without a record for
/// it, returns the grid to its original cell state and removes the net
/// modification record.
pub proof fn lemma_toggle_pair_restores(
    cells: Seq<Cellule>,
    mods: Seq<GridModification>,
    idx: i32,
    first_step: i32,
    second_step: i32,
)
    requires
        0 <= idx < cells.len(),
        !contains_index(mods, idx),
    ensures
        toggled(toggled(cells, idx as int), idx as int) == cells,
        modifications_toggled(modifications_toggled(mods, first_step, idx), second_step, idx)
            == mods,
{
    lemma_toggle_cellule_pair(cells, idx as int);
    let record = GridModification { step_index: first_step, grid_index: idx };
    let pushed = mods.push(record);
    assert(pushed[mods.len() as int].grid_index == idx);
    assert(contains_index(pushed, idx));
    assert(pushed.drop_last() =~= mods);
    assert(pushed.last() == record);
    lemma_without_index_absent(mods, idx);
    assert(without_index(pushed, idx) == without_index(mods, idx));
}

/// The metrics of one finished run, as the evaluator compares them.
#[derive(Clone, Debug)]
pub struct RunMetrics {
    pub seed_label: String,
    pub step_count: i32,
    pub active_count: i32,
    pub modification_count: usize,
}

/// Whether an earlier run is comparable to the current one: same seed and
/// the same number of manual edits.
pub open spec fn metrics_match(entry: RunMetrics, current: RunMetrics) -> bool {
    &&& entry.seed_label@ == current.seed_label@
    &&& entry.modification_count == current.modification_count
}

/// The step counts of the comparable entries of the pool, in pool order.
pub open spec fn matching_steps(pool: Seq<RunMetrics>, current: RunMetrics) -> Seq<i32>
    decreases pool.len(),
{
    if pool.len() == 0 {
        Seq::empty()
    } else {
        let rest = matching_steps(pool.drop_last(), current);
        if metrics_match(pool.last(), current) {
            rest.push(pool.last().step_count)
        } else {
            rest
        }
    }
}

/// The active-cell counts of the comparable entries of the pool, in pool
/// order.
pub open spec fn matching_actives(pool: Seq<RunMetrics>, current: RunMetrics) -> Seq<i32>
    decreases pool.len(),
{
    if pool.len() == 0 {
        Seq::empty()
    } else {
        let rest = matching_actives(pool.drop_last(), current);
        if metrics_match(pool.last(), current) {
            rest.push(pool.last().active_count)
        } else {
            rest
        }
    }
}

/// How many values of `s` are strictly below `x`.
pub open spec fn count_lt(s: Seq<i32>, x: i32) -> int
    decreases s.len(),
{
    if s.len() == 0 {
        0
    } else {
        count_lt(s.drop_last(), x) + if s.last() < x {
            1int
        } else {
            0int
        }
    }
}

/// How many values of `s` are strictly above `x`.
pub open spec fn count_gt(s: Seq<i32>, x: i32) -> int
    decreases s.len(),
{
    if s.len() == 0 {
        0
    } else {
        count_gt(s.drop_last(), x) + if s.last() > x {
            1int
        } else {
            0int
        }
    }
}

/// The smaller of two values.
pub open spec fn spec_min(a: int, b: int) -> int {
    if a < b {
        a
    } else {
        b
    }
}

/// Whether the finished run earns a life score: against the comparable
/// entries of the pool, sorted ascending by step count, its step count must
/// exceed the highest among the first `min(len - 1, 20)` entries — that is,
/// at least that many comparable step counts lie strictly below it.  An
/// empty comparable pool, or one with a single entry, qualifies outright.
pub open spec fn life_qualifies(pool: Seq<RunMetrics>, current: RunMetrics) -> bool {
    let steps = matching_steps(pool, current);
    if steps.len() == 0 {
        true
    } else {
        let cutoff: int = spec_min(steps.len() - 1, 20);
        cutoff == 0 || count_lt(steps, current.step_count) >= cutoff
    }
}

/// Whether the finished run earns a death score: against the comparable
/// entries of the pool, sorted descending by active-cell count, its count
/// must lie below the lowest among the first `min(len - 1, 20)` entries —
/// that is, at least that many comparable counts lie strictly above it.  An
/// empty comparable pool, or one with a single entry, qualifies outright.
pub open spec fn death_qualifies(pool: Seq<RunMetrics>, current: RunMetrics) -> bool {
    let actives = matching_actives(pool, current);
    if actives.len() == 0 {
        true
    } else {
        let cutoff: int = spec_min(actives.len() - 1, 20);
        cutoff == 0 || count_gt(actives, current.active_count) >= cutoff
    }
}

/// Whether `s` is sorted ascending.
pub open spec fn sorted_asc(s: Seq<i32>) -> bool {
    forall|a: int, b: int| 0 <= a <= b < s.len() ==> s[a] <= s[b]
}

/// Overwriting one value shifts the below-`x` count by the two indicators.
proof fn lemma_count_lt_update(s: Seq<i32>, i: int, v: i32, x: i32)
    requires
        0 <= i < s.len(),
    ensures
        count_lt(s.update(i, v), x) == count_lt(s, x) - (if s[i] < x {
            1int
        } else {
            0int
        }) + (if v < x {
            1int
        } else {
            0int
        }),
    decreases s.len(),
{
    if i == s.len() - 1 {
        assert(s.update(i, v).drop_last() =~= s.drop_last());
    } else {
        assert(s.update(i, v).drop_last() =~= s.drop_last().update(i, v));
        lemma_count_lt_update(s.drop_last(), i, v, x);
    }
}

/// Overwriting one value shifts the above-`x` count by the two indicators.
proof fn lemma_count_gt_update(s: Seq<i32>, i: int, v: i32, x: i32)
    requires
        0 <= i < s.len(),
    ensures
        count_gt(s.update(i, v), x) == count_gt(s, x) - (if s[i] > x {
            1int
        } else {
            0int
        }) + (if v > x {
            1int
        } else {
            0int
        }),
    decreases s.len(),
{
    if i == s.len() - 1 {
        assert(s.update(i, v).drop_last() =~= s.drop_last());
    } else {
        assert(s.update(i, v).drop_last() =~= s.drop_last().update(i, v));
        lemma_count_gt_update(s.drop_last(), i, v, x);
    }
}

/// The below-`x` count lies between zero and the length.
proof fn lemma_count_lt_bounds(s: Seq<i32>, x: i32)
    ensures
        0 <= count_lt(s, x) <= s.len(),
    decreases s.len(),
{
    if s.len() > 0 {
        lemma_count_lt_bounds(s.drop_last(), x);
    }
}

/// The above-`x` count lies between zero and the length.
proof fn lemma_count_gt_bounds(s: Seq<i32>, x: i32)
    ensures
        0 <= count_gt(s, x) <= s.len(),
    decreases s.len(),
{
    if s.len() > 0 {
        lemma_count_gt_bounds(s.drop_last(), x);
    }
}

/// If the first `m` values lie below `x`, at least `m` values do.
proof fn lemma_count_lt_ge(s: Seq<i32>, x: i32, m: int)
    requires
        0 <= m <= s.len(),
        forall|j: int| 0 <= j < m ==> s[j] < x,
    ensures
        count_lt(s, x) >= m,
    decreases s.len(),
{
    lemma_count_lt_bounds(s, x);
    if s.len() > 0 {
        assert(forall|j: int| 0 <= j < s.len() - 1 ==> s.drop_last()[j] == s[j]);
        if m == s.len() {
            lemma_count_lt_ge(s.drop_last(), x, m - 1);
        } else {
            lemma_count_lt_ge(s.drop_last(), x, m);
        }
    }
}

/// If every value from index `m` on lies at or above `x`, at most `m` values
/// lie below it.
proof fn lemma_count_lt_le(s: Seq<i32>, x: i32, m: int)
    requires
        0 <= m <= s.len(),
        forall|j: int| m <= j < s.len() ==> s[j] >= x,
    ensures
        count_lt(s, x) <= m,
    decreases s.len(),
{
    lemma_count_lt_bounds(s, x);
    if s.len() > 0 && m < s.len() {
        assert(forall|j: int| 0 <= j < s.len() - 1 ==> s.drop_last()[j] == s[j]);
        lemma_count_lt_le(s.drop_last(), x, m);
    }
}

/// If every value from index `m` on lies above `x`, at least `len - m`
/// values do.
proof fn lemma_count_gt_ge(s: Seq<i32>, x: i32, m: int)
    requires
        0 <= m <= s.len(),
        forall|j: int| m <= j < s.len() ==> s[j] > x,
    ensures
        count_gt(s, x) >= s.len() - m,
    decreases s.len(),
{
    lemma_count_gt_bounds(s, x);
    if s.len() > 0 && m < s.len() {
        assert(forall|j: int| 0 <= j < s.len() - 1 ==> s.drop_last()[j] == s[j]);
        lemma_count_gt_ge(s.drop_last(), x, m);
    }
}

/// If the first `m` values lie at or below `x`, at most `len - m` values lie
/// above it.
proof fn lemma_count_gt_le(s: Seq<i32>, x: i32, m: int)
    requires
        0 <= m <= s.len(),
        forall|j: int| 0 <= j < m ==> s[j] <= x,
    ensures
        count_gt(s, x) <= s.len() - m,
    decreases s.len(),
{
    lemma_count_gt_bounds(s, x);
    if s.len() > 0 {
        assert(forall|j: int| 0 <= j < s.len() - 1 ==> s.drop_last()[j] == s[j]);
        if m == s.len() {
            lemma_count_gt_le(s.drop_last(), x, m - 1);
        } else {
            lemma_count_gt_le(s.drop_last(), x, m);
        }
    }
}

/// Insertion sort, ascending; the value counts on either side of any bound
/// are untouched, so the sorted sequence holds exactly the starting values.
fn sort_i32(values: &mut Vec<i32>)
    ensures
        final(values)@.len() == old(values)@.len(),
        sorted_asc(final(values)@),
        forall|x: i32| count_lt(final(values)@, x) == count_lt(old(values)@, x),
        forall|x: i32| count_gt(final(values)@, x) == count_gt(old(values)@, x),
{
    let length: usize = values.len();
    let mut i: usize = 0;
    while i < length
        invariant
            0 <= i <= length,
            values@.len() == length,
            forall|a: int, b: int| 0 <= a <= b < i ==> values@[a] <= values@[b],
            forall|x: i32| count_lt(values@, x) == count_lt(old(values)@, x),
            forall|x: i32| count_gt(values@, x) == count_gt(old(values)@, x),
        decreases length - i,
    {
        let mut j: usize = i;
        while j > 0 && values[j - 1] > values[j]
            invariant
                0 <= j <= i < length,
                values@.len() == length,
                forall|a: int, b: int|
                    0 <= a <= b <= i && b != j ==> values@[a] <= values@[b],
                forall|a: int| j < a <= i ==> values@[j as int] <= values@[a],
                forall|x: i32| count_lt(values@, x) == count_lt(old(values)@, x),
                forall|x: i32| count_gt(values@, x) == count_gt(old(values)@, x),
            decreases j,
        {
            let ghost pre: Seq<i32> = values@;
            let lower: i32 = values[j - 1];
            let upper: i32 = values[j];
            values[j - 1] = upper;
            values[j] = lower;
            proof {
                assert(values@ =~= pre.update(j - 1, upper).update(j as int, lower));
                assert forall|x: i32| count_lt(values@, x) == count_lt(pre, x) by {
                    lemma_count_lt_update(pre, j - 1, upper, x);
                    lemma_count_lt_update(pre.update(j - 1, upper), j as int, lower, x);
                }
                assert forall|x: i32| count_gt(values@, x) == count_gt(pre, x) by {
                    lemma_count_gt_update(pre, j - 1, upper, x);
                    lemma_count_gt_update(pre.update(j - 1, upper), j as int, lower, x);
                }
            }
            j = j - 1;
        }
        i = i + 1;
    }
}

/// Whether the finished run earns a life score against the pool of earlier
/// runs: comparable entries are those with the same seed label and the same
/// number of manual edits; sorted ascending by step count, the run must beat
/// the last of the first `min(len - 1, 20)` of them.  An empty comparable
/// pool qualifies outright.
pub fn check_life_score(previous_scores: &Vec<RunMetrics>, current: &RunMetrics) -> (r: bool)
    ensures
        r == life_qualifies(previous_scores@, *current),
{
    let mut keys: Vec<i32> = Vec::new();
    let mut i: usize = 0;
    while i < previous_scores.len()
        invariant
            0 <= i <= previous_scores@.len(),
            keys@ == matching_steps(previous_scores@.take(i as int), *current),
        decreases previous_scores@.len() - i,
    {
        proof {
            assert(previous_scores@.take(i + 1).drop_last() =~= previous_scores@.take(i as int));
            assert(previous_scores@.take(i + 1).last() == previous_scores@[i as int]);
        }
        let entry: &RunMetrics = &previous_scores[i];
        if entry.seed_label == current.seed_label && entry.modification_count
            == current.modification_count {
            keys.push(entry.step_count);
        }
        i = i + 1;
    }
    proof {
        assert(previous_scores@.take(previous_scores@.len() as int) =~= previous_scores@);
    }
    if keys.len() == 0 {
        return true;
    }
    let cutoff: usize = if keys.len() - 1 < 20 {
        keys.len() - 1
    } else {
        20
    };
    if cutoff == 0 {
        return true;
    }
    sort_i32(&mut keys);
    let boundary: i32 = keys[cutoff - 1];
    let qualifies: bool = boundary < current.step_count;
    proof {
        if qualifies {
            assert forall|j: int| 0 <= j < cutoff implies keys@[j] < current.step_count by {
                assert(keys@[j] <= keys@[cutoff - 1]);
            }
            lemma_count_lt_ge(keys@, current.step_count, cutoff as int);
        } else {
            assert forall|j: int| cutoff - 1 <= j < keys@.len() implies keys@[j]
                >= current.step_count by {
                assert(keys@[cutoff - 1] <= keys@[j]);
            }
            lemma_count_lt_le(keys@, current.step_count, cutoff - 1);
        }
    }
    qualifies
}

/// Whether the finished run earns a death score against the pool of earlier
/// runs: comparable entries are those with the same seed label and the same
/// number of manual edits; sorted descending by active-cell count, the run
/// must end below the last of the first `min(len - 1, 20)` of them.  An
/// empty comparable pool qualifies outright.
pub fn check_death_score(previous_scores: &Vec<RunMetrics>, current: &RunMetrics) -> (r: bool)
    ensures
        r == death_qualifies(previous_scores@, *current),
{
    let mut keys: Vec<i32> = Vec::new();
    let mut i: usize = 0;
    while i < previous_scores.len()
        invariant
            0 <= i <= previous_scores@.len(),
            keys@ == matching_actives(previous_scores@.take(i as int), *current),
        decreases previous_scores@.len() - i,
    {
        proof {
            assert(previous_scores@.take(i + 1).drop_last() =~= previous_scores@.take(i as int));
            assert(previous_scores@.take(i + 1).last() == previous_scores@[i as int]);
        }
        let entry: &RunMetrics = &previous_scores[i];
        if entry.seed_label == current.seed_label && entry.modification_count
            == current.modification_count {
            keys.push(entry.active_count);
        }
        i = i + 1;
    }
    proof {
        assert(previous_scores@.take(previous_scores@.len() as int) =~= previous_scores@);
    }
    if keys.len() == 0 {
        return true;
    }
    let cutoff: usize = if keys.len() - 1 < 20 {
        keys.len() - 1
    } else {
        20
    };
    if cutoff == 0 {
        return true;
    }
    let total: usize = keys.len();
    sort_i32(&mut keys);
    let boundary: i32 = keys[total - cutoff];
    let qualifies: bool = boundary > current.active_count;
    proof {
        if qualifies {
            assert forall|j: int| total - cutoff <= j < keys@.len() implies keys@[j]
                > current.active_count by {
                assert(keys@[total - cutoff] <= keys@[j]);
            }
            lemma_count_gt_ge(keys@, current.active_count, total - cutoff);
        } else {
            assert forall|j: int| 0 <= j < total - cutoff + 1 implies keys@[j]
                <= current.active_count by {
                assert(keys@[j] <= keys@[total - cutoff]);
            }
            lemma_count_gt_le(keys@, current.active_count, total - cutoff + 1);
        }
    }
    qualifies
}

} // verus!
