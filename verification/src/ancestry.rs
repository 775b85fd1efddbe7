use vstd::prelude::*;

use crate::keri_store::FindOutcome;
use crate::store::KeriStore;

verus! {

impl KeriStore {
    /// The index of the `k`-th parent of commit `i` within the snapshot.
    pub open spec fn parent_of(self, i: int, k: int) -> int {
        self.commits@[i].parent_idxs@[k] as int
    }

    /// The number of parents of commit `i`.
    pub open spec fn parent_count(self, i: int) -> int {
        self.commits@[i].parent_idxs@.len() as int
    }

    /// Ancestry: commit `j` is `i` itself or an ancestor of `i`,
    /// following parent links. Well-formedness makes every parent stand
    /// strictly below its child, so the walk terminates.
    pub open spec fn reachable(self, i: int, j: int) -> bool
        decreases i
            when self.wf() && 0 <= i < self.commits@.len()
    {
        i == j || exists|k: int|
            0 <= k < self.parent_count(i) && self.reachable(#[trigger] self.parent_of(i, k), j)
    }

    /// Whether commit `i` or any of its ancestors contributes a
    /// decodable entry.
    pub open spec fn subtree_has_entry(self, i: int) -> bool
        decreases i
            when self.wf() && 0 <= i < self.commits@.len()
    {
        self.commit_entry(i) is Found || exists|k: int|
            0 <= k < self.parent_count(i) && self.subtree_has_entry(
                #[trigger] self.parent_of(i, k),
            )
    }

    /// Everything reachable from a commit stands at or below it.
    pub proof fn lemma_reachable_bounds(self, i: int, j: int)
        requires
            self.wf(),
            0 <= i < self.commits@.len(),
            self.reachable(i, j),
        ensures
            0 <= j <= i,
        decreases i,
    {
        if i != j {
            let k = choose|k: int|
                0 <= k < self.parent_count(i) && self.reachable(#[trigger] self.parent_of(i, k), j);
            self.lemma_reachable_bounds(self.parent_of(i, k), j);
        }
    }

    /// Ancestry steps through parent links: a parent of a reachable
    /// commit is reachable.
    pub proof fn lemma_reachable_step(self, h: int, i: int, k: int)
        requires
            self.wf(),
            0 <= h < self.commits@.len(),
            0 <= i < self.commits@.len(),
            self.reachable(h, i),
            0 <= k < self.parent_count(i),
        ensures
            self.reachable(h, self.parent_of(i, k)),
        decreases h,
    {
        if h == i {
            assert(self.reachable(self.parent_of(i, k), self.parent_of(i, k)));
        } else {
            let k0 = choose|k0: int|
                0 <= k0 < self.parent_count(h) && self.reachable(
                    #[trigger] self.parent_of(h, k0),
                    i,
                );
            self.lemma_reachable_step(self.parent_of(h, k0), i, k);
        }
    }

    /// A mark table that is closed under parent links and marks `h`
    /// covers everything reachable from `h`.
    proof fn lemma_marks_complete(self, marks: Seq<bool>, h: int, j: int)
        requires
            self.wf(),
            marks.len() == self.commits@.len(),
            0 <= h < self.commits@.len(),
            0 <= j < self.commits@.len(),
            marks[h],
            forall|x: int, k: int|
                0 <= x < self.commits@.len() && marks[x] && 0 <= k < self.parent_count(x)
                    ==> marks[#[trigger] self.parent_of(x, k)],
            self.reachable(h, j),
        ensures
            marks[j],
        decreases h,
    {
        if h != j {
            let k = choose|k: int|
                0 <= k < self.parent_count(h) && self.reachable(#[trigger] self.parent_of(h, k), j);
            self.lemma_reachable_bounds(h, j);
            self.lemma_marks_complete(marks, self.parent_of(h, k), j);
        }
    }

    /// Computes, in one backward pass over the snapshot, which commits
    /// belong to the ancestry of `h`. Parents stand strictly below their
    /// children, so one descending sweep reaches a fixed point.
    #[verifier::loop_isolation(false)]
    pub(crate) fn ancestry_marks(&self, h: usize) -> (marks: Vec<bool>)
        requires
            self.wf(),
            h < self.commits@.len(),
        ensures
            marks@.len() == self.commits@.len(),
            forall|j: int|
                0 <= j < marks@.len() ==> ((#[trigger] marks@[j]) <==> self.reachable(
                    h as int,
                    j,
                )),
    {
        let n = self.commits.len();
        let mut marks: Vec<bool> = Vec::new();
        while marks.len() < n
            invariant
                marks@.len() <= n,
                forall|j: int| 0 <= j < marks@.len() ==> !(#[trigger] marks@[j]),
            decreases n - marks@.len(),
        {
            marks.push(false);
        }
        marks.set(h, true);
        let mut i: usize = h + 1;
        while i > 0
            invariant
                i <= h + 1,
                marks@.len() == n,
                marks@[h as int],
                forall|j: int|
                    0 <= j < n && #[trigger] marks@[j] ==> self.reachable(h as int, j),
                forall|j: int, k: int|
                    i <= j < n && marks@[j] && 0 <= k < self.parent_count(j) ==> marks@[
                        #[trigger] self.parent_of(j, k)
                    ],
            decreases i,
        {
            i -= 1;
            if marks[i] {
                let pn = self.commits[i].parent_idxs.len();
                let mut k: usize = 0;
                while k < pn
                    invariant
                        k <= pn,
                        pn == self.parent_count(i as int),
                        marks@.len() == n,
                        marks@[h as int],
                        marks@[i as int],
                        forall|j: int|
                            0 <= j < n && #[trigger] marks@[j] ==> self.reachable(h as int, j),
                        forall|j: int, t: int|
                            i + 1 <= j < n && marks@[j] && 0 <= t < self.parent_count(j)
                                ==> marks@[#[trigger] self.parent_of(j, t)],
                        forall|t: int|
                            0 <= t < k ==> marks@[#[trigger] self.parent_of(i as int, t)],
                    decreases pn - k,
                {
                    let p = self.commits[i].parent_idxs[k];
                    proof {
                        self.lemma_reachable_step(h as int, i as int, k as int);
                    }
                    marks.set(p, true);
                    k += 1;
                }
            }
        }
        proof {
            assert forall|j: int| 0 <= j < n && self.reachable(h as int, j) implies marks@[j] by {
                self.lemma_marks_complete(marks@, h as int, j);
            }
        }
        marks
    }
}

} // verus!
