use vstd::prelude::*;
use vstd::multiset::Multiset;

use crate::entry::{Entry, EntryView};
use crate::error::{FindEntry, KeriError};
use crate::keri_store::FindOutcome;
use crate::store::{Commit, KeriStore};

verus! {

broadcast use vstd::seq_lib::group_to_multiset_ensures;

/// The outcome of walking the whole ancestry for reconstruction: a store
/// failure on the way, a broken chain, or the entries collected in
/// snapshot order.
pub enum WalkOutcome {
    StoreFailed,
    Truncated,
    Collected(Seq<EntryView>),
}

/// The ghost shapes of a list of entries.
pub open spec fn seq_views(s: Seq<Entry>) -> Seq<EntryView> {
    s.map_values(|e: Entry| e@)
}

/// Sequence numbers never decrease along the list.
pub open spec fn sorted_by_sn(s: Seq<EntryView>) -> bool {
    forall|p: int, q: int| 0 <= p < q < s.len() ==> s[p].sn <= s[q].sn
}

/// Sequence numbers strictly increase along the list.
pub open spec fn strictly_ascending(s: Seq<EntryView>) -> bool {
    forall|p: int, q: int| 0 <= p < q < s.len() ==> s[p].sn < s[q].sn
}

/// Two positions of the list carry the same sequence number.
pub open spec fn has_dup_sn(s: Seq<EntryView>) -> bool {
    exists|p: int, q: int| 0 <= p < q < s.len() && s[p].sn == s[q].sn
}

/// A duplicated sequence number survives any reordering: if one list has
/// two positions with the same sequence number and another holds the
/// same entries as a multiset, so does the other.
proof fn lemma_dup_sn_transfer(a: Seq<EntryView>, b: Seq<EntryView>)
    requires
        a.to_multiset() == b.to_multiset(),
        has_dup_sn(a),
    ensures
        has_dup_sn(b),
{
    let (p, q) = choose|p: int, q: int| 0 <= p < q < a.len() && a[p].sn == a[q].sn;
    let x = a[p];
    let y = a[q];
    if x == y {
        a.remove_ensures(p);
        assert(a.remove(p)[q - 1] == y);
        assert(a.remove(p).to_multiset().contains(y));
        assert(a.remove(p).to_multiset() == a.to_multiset().remove(x));
        assert(b.to_multiset().count(x) >= 2);
        assert(b.to_multiset().contains(x));
        let p2 = choose|p2: int| 0 <= p2 < b.len() && b[p2] == x;
        b.remove_ensures(p2);
        assert(b.remove(p2).to_multiset() == b.to_multiset().remove(x));
        assert(b.remove(p2).to_multiset().count(x) >= 1);
        assert(b.remove(p2).to_multiset().contains(x));
        let q2 = choose|q2: int| 0 <= q2 < b.remove(p2).len() && b.remove(p2)[q2] == x;
        if q2 < p2 {
            assert(b[q2] == x);
            assert(b[q2].sn == b[p2].sn);
        } else {
            assert(b[q2 + 1] == x);
            assert(b[q2 + 1].sn == b[p2].sn);
        }
    } else {
        assert(a.to_multiset().contains(x));
        assert(a.to_multiset().contains(y));
        let p2 = choose|p2: int| 0 <= p2 < b.len() && b[p2] == x;
        let q2 = choose|q2: int| 0 <= q2 < b.len() && b[q2] == y;
        assert(p2 != q2);
        if p2 < q2 {
            assert(b[p2].sn == b[q2].sn);
        } else {
            assert(b[q2].sn == b[p2].sn);
        }
    }
}

impl KeriStore {
    /// Reconstruction walk, as a value: the outcome of examining the
    /// commits at indices `0` up to (excluding) `j`, oldest position
    /// first, taking only commits in the ancestry of `h`. An ancestry
    /// commit with an unretrievable tree or blob is a store failure,
    /// surfaced and never skipped; one that has parents but no ancestor
    /// entry anywhere behind it breaks the chain; otherwise each
    /// ancestry commit contributes its entry, if it holds one.
    pub open spec fn collect_upto(self, h: int, j: int) -> WalkOutcome
        decreases j,
    {
        if j <= 0 {
            WalkOutcome::Collected(Seq::empty())
        } else {
            match self.collect_upto(h, j - 1) {
                WalkOutcome::Collected(s) => {
                    let i = j - 1;
                    if !self.reachable(h, i) {
                        WalkOutcome::Collected(s)
                    } else if self.commit_entry(i) is StoreFailed {
                        WalkOutcome::StoreFailed
                    } else if self.parent_count(i) > 0 && (forall|k: int|
                        0 <= k < self.parent_count(i) ==> !self.subtree_has_entry(
                            #[trigger] self.parent_of(i, k),
                        )) {
                        WalkOutcome::Truncated
                    } else {
                        match self.commit_entry(i) {
                            FindOutcome::Found(e) => WalkOutcome::Collected(s.push(e)),
                            _ => WalkOutcome::Collected(s),
                        }
                    }
                },
                WalkOutcome::StoreFailed => WalkOutcome::StoreFailed,
                WalkOutcome::Truncated => WalkOutcome::Truncated,
            }
        }
    }

    /// The commit index a reconstruction starts from: the given commit's,
    /// or the head of the log where none is given.
    pub open spec fn spec_start_index(self, commit: Option<Commit>) -> Result<int, KeriError> {
        match commit {
            None => match self.spec_head() {
                Ok(h) => Ok(h),
                Err(FindEntry::Empty) => Err(KeriError::EmptyLog),
                Err(e) => Err(KeriError::FindRef(e)),
            },
            Some(c) => match self.spec_commit_index(c.id) {
                Some(i) => Ok(i),
                None => Err(KeriError::FindRef(FindEntry::FindCommit)),
            },
        }
    }

    /// Reconstruction, as a value: the entries of the whole ancestry in
    /// snapshot order, or the first failure. A start commit whose tree
    /// holds no decodable entry is an empty log.
    pub open spec fn spec_log_entries(self, commit: Option<Commit>) -> Result<
        Seq<EntryView>,
        KeriError,
    > {
        match self.spec_start_index(commit) {
            Err(e) => Err(e),
            Ok(h) => {
                match self.commit_entry(h) {
                    FindOutcome::StoreFailed => Err(KeriError::Git),
                    FindOutcome::Absent => Err(KeriError::EmptyLog),
                    FindOutcome::Found(_) => match self.collect_upto(h, h + 1) {
                        WalkOutcome::StoreFailed => Err(KeriError::Git),
                        WalkOutcome::Truncated => Err(KeriError::TruncatedLog),
                        WalkOutcome::Collected(s) => Ok(s),
                    },
                }
            },
        }
    }

    /// A failed walk stays failed: once a prefix of the sweep ends in a
    /// failure, every longer sweep ends in the same failure.
    proof fn lemma_collect_error_persists(self, h: int, j1: int, j2: int)
        requires
            0 <= j1 <= j2,
            !(self.collect_upto(h, j1) is Collected),
        ensures
            self.collect_upto(h, j2) == self.collect_upto(h, j1),
        decreases j2 - j1,
    {
        if j1 < j2 {
            self.lemma_collect_error_persists(h, j1, j2 - 1);
        }
    }

    /// Walks the whole ancestry of `h`, oldest snapshot position first,
    /// and collects each ancestry commit's entry.
    #[verifier::loop_isolation(false)]
    fn collect_entries(&self, h: usize) -> (r: Result<Vec<Entry>, KeriError>)
        requires
            self.wf(),
            h < self.commits@.len(),
        ensures
            match r {
                Ok(v) => self.collect_upto(h as int, h as int + 1) == WalkOutcome::Collected(
                    seq_views(v@),
                ),
                Err(e) => match e {
                    KeriError::Git => self.collect_upto(h as int, h as int + 1)
                        == WalkOutcome::StoreFailed,
                    KeriError::TruncatedLog => self.collect_upto(h as int, h as int + 1)
                        == WalkOutcome::Truncated,
                    _ => false,
                },
            },
    {
        let total = self.commits.len();
        assert(h < total);
        let marks = self.ancestry_marks(h);
        let mut has: Vec<bool> = Vec::new();
        let mut out: Vec<Entry> = Vec::new();
        assert(seq_views(out@) =~= Seq::<EntryView>::empty());
        let mut i: usize = 0;
        while i <= h
            invariant
                i <= h + 1,
                has@.len() == i,
                self.collect_upto(h as int, i as int) == WalkOutcome::Collected(seq_views(out@)),
                forall|j: int|
                    0 <= j < i && self.reachable(h as int, j) ==> ((#[trigger] has@[j])
                        <==> self.subtree_has_entry(j)),
            decreases h + 1 - i,
        {
            if marks[i] {
                let pn = self.commits[i].parent_idxs.len();
                let mut any: bool = false;
                let mut k: usize = 0;
                while k < pn
                    invariant
                        k <= pn,
                        pn == self.parent_count(i as int),
                        any == exists|t: int|
                            0 <= t < k && self.subtree_has_entry(
                                #[trigger] self.parent_of(i as int, t),
                            ),
                    decreases pn - k,
                {
                    let p = self.commits[i].parent_idxs[k];
                    proof {
                        self.lemma_reachable_step(h as int, i as int, k as int);
                    }
                    if has[p] {
                        any = true;
                    }
                    k += 1;
                }
                match self.log_entry_in_commit(None, i) {
                    Err(_) => {
                        proof {
                            assert(self.collect_upto(h as int, i as int + 1)
                                == WalkOutcome::StoreFailed);
                            self.lemma_collect_error_persists(h as int, i as int + 1, h as int + 1);
                        }
                        return Err(KeriError::Git);
                    },
                    Ok(eo) => {
                        if pn > 0 && !any {
                            proof {
                                assert(self.collect_upto(h as int, i as int + 1)
                                    == WalkOutcome::Truncated);
                                self.lemma_collect_error_persists(h as int, i as int + 1, h as int + 1);
                            }
                            return Err(KeriError::TruncatedLog);
                        }
                        match eo {
                            Some(e) => {
                                proof {
                                    assert(seq_views(out@.push(e)) =~= seq_views(out@).push(e@));
                                }
                                let got = true;
                                out.push(e);
                                has.push(got || any);
                            },
                            None => {
                                has.push(any);
                            },
                        }
                    },
                }
            } else {
                has.push(false);
            }
            i += 1;
        }
        Ok(out)
    }

    /// Reconstructs the whole log from the given commit, or from the
    /// head of the log where none is given: every entry found in the
    /// ancestry, exactly once per contributing commit, in strictly
    /// ascending sequence-number order. The head commit must contribute
    /// an entry (`EmptyLog` otherwise); a commit with parents but no
    /// ancestor entry is a broken chain (`TruncatedLog`); two entries
    /// with one sequence number are structurally inconsistent
    /// (`DuplicateEntry`). A gap in the sequence numbers is accepted:
    /// across a merge the branches need not cover a contiguous range,
    /// and unlike a duplicate a gap leaves the strict total order
    /// intact, so completeness takes precedence over gap detection.
    #[verifier::loop_isolation(false)]
    pub fn log_entries(&self, commit: Option<Commit>) -> (r: Result<Vec<Entry>, KeriError>)
        requires
            self.wf(),
        ensures
            match r {
                Ok(v) => {
                    &&& self.spec_log_entries(commit) is Ok
                    &&& seq_views(v@).to_multiset() == self.spec_log_entries(
                        commit,
                    )->Ok_0.to_multiset()
                    &&& strictly_ascending(seq_views(v@))
                    &&& !has_dup_sn(self.spec_log_entries(commit)->Ok_0)
                },
                Err(e) => match e {
                    KeriError::DuplicateEntry => self.spec_log_entries(commit) is Ok && has_dup_sn(
                        self.spec_log_entries(commit)->Ok_0,
                    ),
                    _ => self.spec_log_entries(commit) == Err::<Seq<EntryView>, KeriError>(e),
                },
            },
    {
        let h = match &commit {
            None => match self.head_index() {
                Ok(h) => h,
                Err(e) => {
                    return Err(
                        match e {
                            FindEntry::Empty => KeriError::EmptyLog,
                            _ => KeriError::FindRef(e),
                        },
                    );
                },
            },
            Some(c) => match self.find_commit(c.id) {
                Some(i) => i,
                None => {
                    return Err(KeriError::FindRef(FindEntry::FindCommit));
                },
            },
        };
        match self.log_entry_in_commit(None, h) {
            Err(_) => {
                return Err(KeriError::Git);
            },
            Ok(None) => {
                return Err(KeriError::EmptyLog);
            },
            Ok(Some(_)) => {},
        }
        let collected = match self.collect_entries(h) {
            Ok(v) => v,
            Err(e) => {
                return Err(e);
            },
        };
        let ghost s = seq_views(collected@);
        let sorted = sort_entries(collected);
        let n = sorted.len();
        let mut t: usize = 1;
        while t < n
            invariant
                1 <= t || n == 0,
                t <= n || n == 0,
                n == sorted@.len(),
                forall|p: int|
                    0 <= p < t - 1 ==> (#[trigger] seq_views(sorted@)[p]).sn != seq_views(
                        sorted@,
                    )[p + 1].sn,
            decreases n - t,
        {
            if sorted[t - 1].sn == sorted[t].sn {
                proof {
                    let sv = seq_views(sorted@);
                    assert(sv[t as int - 1].sn == sv[t as int].sn);
                    assert(0 <= (t as int) - 1);
                    assert((t as int) < sv.len());
                    assert(has_dup_sn(sv));
                    lemma_dup_sn_transfer(sv, s);
                }
                return Err(KeriError::DuplicateEntry);
            }
            t += 1;
        }
        proof {
            let sv = seq_views(sorted@);
            assert forall|p: int, q: int| 0 <= p < q < sv.len() implies sv[p].sn < sv[q].sn by {
                assert(sv[p].sn != sv[p + 1].sn);
                assert(sv[p].sn <= sv[p + 1].sn);
                assert(sv[p + 1].sn <= sv[q].sn);
            }
            if has_dup_sn(s) {
                lemma_dup_sn_transfer(s, sv);
            }
        }
        Ok(sorted)
    }
}

/// Sorts entries by sequence number: repeatedly moves a remaining entry
/// with the smallest sequence number to the output.
#[verifier::loop_isolation(false)]
fn sort_entries(v: Vec<Entry>) -> (r: Vec<Entry>)
    ensures
        seq_views(r@).to_multiset() == seq_views(v@).to_multiset(),
        sorted_by_sn(seq_views(r@)),
{
    let mut rest = v;
    let ghost orig = seq_views(rest@);
    let mut out: Vec<Entry> = Vec::new();
    while rest.len() > 0
        invariant
            sorted_by_sn(seq_views(out@)),
            seq_views(out@).to_multiset().add(seq_views(rest@).to_multiset()) == orig.to_multiset(),
            forall|p: int, q: int|
                0 <= p < out@.len() && 0 <= q < rest@.len() ==> seq_views(out@)[p].sn <= seq_views(
                    rest@,
                )[q].sn,
        decreases rest@.len(),
    {
        let mut m: usize = 0;
        let mut t: usize = 1;
        while t < rest.len()
            invariant
                m < rest@.len(),
                t <= rest@.len(),
                forall|q: int| 0 <= q < t ==> seq_views(rest@)[m as int].sn <= seq_views(
                    rest@,
                )[q].sn,
            decreases rest@.len() - t,
        {
            if rest[t].sn < rest[m].sn {
                m = t;
            }
            t += 1;
        }
        let ghost before = rest@;
        let e = rest.remove(m);
        proof {
            before.remove_ensures(m as int);
            assert(seq_views(before.remove(m as int)) =~= seq_views(before).remove(m as int));
            assert(seq_views(before).remove(m as int).to_multiset() == seq_views(
                before,
            ).to_multiset().remove(seq_views(before)[m as int]));
            assert(seq_views(out@.push(e)) =~= seq_views(out@).push(e@));
        }
        out.push(e);
    }
    proof {
        assert(seq_views(rest@).to_multiset() =~= Multiset::empty());
        assert(seq_views(out@).to_multiset() =~= orig.to_multiset());
    }
    out
}

} // verus!
