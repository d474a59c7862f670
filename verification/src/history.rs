//! The step-history tracker: a window of past grid snapshots, searched for an
//! exact repeat so the caller can stop a run that has entered a cycle.

use vstd::prelude::*;

use crate::game::Cellule;

verus! {

/// Two snapshots are equal when they have the same length and the same
/// alive/dead state at every index.
pub open spec fn snapshots_equal(a: Seq<Cellule>, b: Seq<Cellule>) -> bool {
    &&& a.len() == b.len()
    &&& forall|i: int| 0 <= i < a.len() ==> a[i].is_alive() == b[i].is_alive()
}

/// Retains the cell snapshots of the steps already taken during a run.
pub struct History {
    pub previous_steps: Vec<Vec<Cellule>>,
}

impl History {
    /// The retained snapshots as mathematical sequences.
    pub open spec fn snapshots(self) -> Seq<Seq<Cellule>> {
        self.previous_steps@.map_values(|v: Vec<Cellule>| v@)
    }

    /// Whether some retained snapshot equals `candidate`.
    pub open spec fn spec_contains_snapshot(self, candidate: Seq<Cellule>) -> bool {
        exists|i: int| 0 <= i < self.snapshots().len() && snapshots_equal(
            self.snapshots()[i],
            candidate,
        )
    }

    /// Appends the current grid's cell snapshot to the window.
    pub fn record(&mut self, snapshot: Vec<Cellule>)
        ensures
            final(self).snapshots() == old(self).snapshots().push(snapshot@),
    {
        proof {
            assert(old(self).previous_steps@.push(snapshot).map_values(|v: Vec<Cellule>| v@)
                =~= old(self).snapshots().push(snapshot@));
        }
        self.previous_steps.push(snapshot);
    }

    /// True exactly when `candidate`'s cells are element-wise identical to some
    /// retained snapshot; false for a first-seen snapshot or one whose length
    /// matches no retained snapshot.
    pub fn is_in_endless_loop(&self, candidate: &Vec<Cellule>) -> (r: bool)
        ensures
            r == self.spec_contains_snapshot(candidate@),
    {
        let mut i: usize = 0;
        while i < self.previous_steps.len()
            invariant
                0 <= i <= self.previous_steps@.len(),
                forall|j: int| 0 <= j < i ==> !snapshots_equal(self.snapshots()[j], candidate@),
            decreases self.previous_steps@.len() - i,
        {
            if cellules_equal(&self.previous_steps[i], candidate) {
                proof {
                    assert(self.snapshots()[i as int] == self.previous_steps@[i as int]@);
                }
                return true;
            }
            i = i + 1;
        }
        false
    }

    /// Discards every retained snapshot.
    pub fn clear_previous_steps(&mut self)
        ensures
            final(self).snapshots() == Seq::<Seq<Cellule>>::empty(),
    {
        proof {
            assert(Seq::<Vec<Cellule>>::empty().map_values(|v: Vec<Cellule>| v@)
                =~= Seq::<Seq<Cellule>>::empty());
        }
        self.previous_steps.clear();
    }
}

/// Element-wise comparison of two cell snapshots.
pub fn cellules_equal(a: &Vec<Cellule>, b: &Vec<Cellule>) -> (r: bool)
    ensures
        r == snapshots_equal(a@, b@),
{
    if a.len() != b.len() {
        return false;
    }
    let mut i: usize = 0;
    while i < a.len()
        invariant
            0 <= i <= a@.len(),
            a@.len() == b@.len(),
            forall|j: int| 0 <= j < i ==> a@[j].is_alive() == b@[j].is_alive(),
        decreases a@.len() - i,
    {
        if a[i].alive() != b[i].alive() {
            return false;
        }
        i = i + 1;
    }
    true
}

} // verus!
