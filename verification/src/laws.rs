use vstd::prelude::*;

use crate::entry::EntryView;
use crate::keri_store::FindOutcome;
use crate::reconstruct::{has_dup_sn, strictly_ascending, WalkOutcome};
use crate::store::{KeriStore, TreeEntry};

verus! {

broadcast use vstd::seq_lib::group_to_multiset_ensures;

impl KeriStore {
    /// Whether commit `j`'s tree holds a decodable entry carrying the
    /// given sequence number.
    pub open spec fn sn_in_commit(self, j: int, sn: u64) -> bool {
        self.commit_find_sn(j, sn) is Found
    }

    /// A tree scan that finds an entry for a sequence number finds one
    /// carrying exactly that number.
    pub proof fn lemma_scan_sn_found(self, ents: Seq<TreeEntry>, target: u64)
        requires
            self.scan_entries_sn(ents, target) is Found,
        ensures
            self.scan_entries_sn(ents, target)->Found_0.sn == target,
        decreases ents.len(),
    {
        if ents.len() != 0 {
            match self.blob_entry(ents[0]) {
                FindOutcome::Found(v) => {
                    if v.sn != target {
                        self.lemma_scan_sn_found(ents.drop_first(), target);
                    }
                },
                FindOutcome::Absent => {
                    self.lemma_scan_sn_found(ents.drop_first(), target);
                },
                FindOutcome::StoreFailed => {},
            }
        }
    }

    /// Blobs that are not entries do not matter: scanning a tree whose
    /// leading entries each yield nothing — blobs that do not decode,
    /// such as unrelated files, and tree entries of other kinds — gives
    /// exactly what scanning the rest gives, for the first-entry scan
    /// and for the sequence-number scan alike.
    pub proof fn lemma_scan_skips_nonentries(
        self,
        pre: Seq<TreeEntry>,
        rest: Seq<TreeEntry>,
        target: u64,
    )
        requires
            forall|t: int|
                0 <= t < pre.len() ==> self.blob_entry(#[trigger] pre[t]) == FindOutcome::Absent,
        ensures
            self.scan_entries(pre + rest) == self.scan_entries(rest),
            self.scan_entries_sn(pre + rest, target) == self.scan_entries_sn(rest, target),
        decreases pre.len(),
    {
        if pre.len() > 0 {
            assert((pre + rest)[0] == pre[0]);
            assert((pre + rest).drop_first() =~= pre.drop_first() + rest);
            self.lemma_scan_skips_nonentries(pre.drop_first(), rest, target);
        } else {
            assert(pre + rest =~= rest);
        }
    }

    /// A sequence number absent from every commit of the ancestry makes
    /// the point lookup report absence, never an error: the lookup walks
    /// past every commit without stopping. The hypothesis that every
    /// ancestry commit scans cleanly to absence reflects store-failure
    /// propagation: a failed tree or blob read yields the store error
    /// instead of silence.
    pub proof fn lemma_find_absent(self, h: int, j: int, sn: u64)
        requires
            self.wf(),
            0 <= h < self.commits@.len(),
            j <= h,
            forall|i: int|
                #[trigger] self.reachable(h, i) ==> self.commit_find_sn(i, sn)
                    == FindOutcome::Absent,
        ensures
            self.find_from(h, j, sn) == FindOutcome::Absent,
        decreases j + 1,
    {
        if j >= 0 {
            if self.reachable(h, j) {
                assert(self.commit_find_sn(j, sn) == FindOutcome::Absent);
            }
            self.lemma_find_absent(h, j - 1, sn);
        }
    }

    /// A sequence number present in some commit of the ancestry makes
    /// the point lookup return an entry that carries exactly that
    /// number and was found in a commit of the ancestry. Where the
    /// number is carried by a single commit, that pins the entry down.
    /// The no-store-failure hypothesis reflects store-failure
    /// propagation: a failed tree or blob read in the ancestry yields
    /// the store error instead.
    pub proof fn lemma_find_present(self, h: int, j: int, sn: u64)
        requires
            self.wf(),
            0 <= h < self.commits@.len(),
            j <= h,
            forall|i: int|
                #[trigger] self.reachable(h, i) ==> !(self.commit_find_sn(i, sn) is StoreFailed),
            exists|i: int|
                0 <= i <= j && self.reachable(h, i) && #[trigger] self.sn_in_commit(i, sn),
        ensures
            exists|i: int|
                {
                    &&& 0 <= i <= j
                    &&& self.reachable(h, i)
                    &&& #[trigger] self.sn_in_commit(i, sn)
                    &&& self.find_from(h, j, sn) == FindOutcome::Found(
                        self.commit_find_sn(i, sn)->Found_0,
                    )
                    &&& self.commit_find_sn(i, sn)->Found_0.sn == sn
                },
        decreases j + 1,
    {
        let w = choose|i: int|
            0 <= i <= j && self.reachable(h, i) && #[trigger] self.sn_in_commit(i, sn);
        if self.reachable(h, j) {
            assert(!(self.commit_find_sn(j, sn) is StoreFailed));
            if self.sn_in_commit(j, sn) {
                match self.spec_tree_entries(self.commits@[j].tree) {
                    Some(es) => {
                        self.lemma_scan_sn_found(es, sn);
                    },
                    None => {},
                }
                assert(self.find_from(h, j, sn) == FindOutcome::Found(
                    self.commit_find_sn(j, sn)->Found_0,
                ));
            } else {
                assert(w < j);
                self.lemma_find_present(h, j - 1, sn);
            }
        } else {
            assert(w != j);
            self.lemma_find_present(h, j - 1, sn);
        }
    }

    /// The number of commits at indices below `j` that belong to the
    /// ancestry of `h` and contribute a decodable entry.
    pub open spec fn contrib_count(self, h: int, j: int) -> nat
        decreases j,
    {
        if j <= 0 {
            0
        } else {
            self.contrib_count(h, j - 1) + (if self.reachable(h, j - 1) && self.commit_entry(
                j - 1,
            ) is Found {
                1nat
            } else {
                0nat
            })
        }
    }

    /// A successful reconstruction walk collects exactly one entry per
    /// contributing commit: its length is the number of commits of the
    /// ancestry whose tree holds a decodable entry.
    pub proof fn lemma_collect_len(self, h: int, j: int)
        requires
            self.collect_upto(h, j) is Collected,
        ensures
            self.collect_upto(h, j)->Collected_0.len() == self.contrib_count(h, j),
        decreases j,
    {
        if j > 0 {
            self.lemma_collect_len(h, j - 1);
        }
    }

    /// A successful reconstruction walk collects exactly the entries of
    /// the ancestry, whole: an entry stands in the collected list if and
    /// only if some commit of the ancestry contributes it. Across a
    /// merge this covers every parent's branch — no branch is omitted
    /// and nothing outside the ancestry is invented.
    pub proof fn lemma_collect_contains(self, h: int, j: int, e: EntryView)
        requires
            self.collect_upto(h, j) is Collected,
        ensures
            self.collect_upto(h, j)->Collected_0.contains(e) <==> exists|i: int|
                0 <= i < j && self.reachable(h, i) && #[trigger] self.commit_entry(i)
                    == FindOutcome::Found(e),
        decreases j,
    {
        if j > 0 {
            self.lemma_collect_contains(h, j - 1, e);
            let s = self.collect_upto(h, j - 1)->Collected_0;
            let s2 = self.collect_upto(h, j)->Collected_0;
            let i0 = j - 1;
            if self.reachable(h, i0) && self.commit_entry(i0) is Found {
                let ei = self.commit_entry(i0)->Found_0;
                assert(s2 == s.push(ei));
                if s.contains(e) {
                    let t = choose|t: int| 0 <= t < s.len() && s[t] == e;
                    assert(s2[t] == e);
                    assert(s2.contains(e));
                }
                if e == ei {
                    assert(s2[s.len() as int] == e);
                    assert(s2.contains(e));
                }
                if s2.contains(e) {
                    let t = choose|t: int| 0 <= t < s2.len() && s2[t] == e;
                    if t < s.len() {
                        assert(s[t] == e);
                        assert(s.contains(e));
                    } else {
                        assert(e == ei);
                        assert(self.commit_entry(i0) == FindOutcome::Found(e));
                    }
                }
            } else {
                assert(s2 == s);
                if s.contains(e) {
                    let t = choose|t: int| 0 <= t < s.len() && s[t] == e;
                    assert(s2[t] == e);
                    assert(s2.contains(e));
                }
            }
            if exists|i: int|
                0 <= i < j && self.reachable(h, i) && #[trigger] self.commit_entry(i)
                    == FindOutcome::Found(e) {
                let w = choose|i: int|
                    0 <= i < j && self.reachable(h, i) && #[trigger] self.commit_entry(i)
                        == FindOutcome::Found(e);
                if w < j - 1 {
                    assert(s.contains(e));
                }
            }
        }
    }

    /// The length of a reconstructed log equals the number of commits of
    /// the ancestry contributing a decodable entry.
    pub proof fn lemma_log_entries_length(self, commit: Option<crate::store::Commit>)
        requires
            self.spec_log_entries(commit) is Ok,
        ensures
            self.spec_start_index(commit) is Ok,
            self.spec_log_entries(commit)->Ok_0.len() == self.contrib_count(
                self.spec_start_index(commit)->Ok_0,
                self.spec_start_index(commit)->Ok_0 + 1,
            ),
    {
        let h = self.spec_start_index(commit)->Ok_0;
        self.lemma_collect_len(h, h + 1);
    }
}

/// Strict ascent by sequence number leaves one order only: two lists
/// that are strictly ascending and hold the same entries as a multiset
/// are equal. With the reconstruction contract this makes repeated
/// reconstruction over an unchanged store return identical results; the
/// point lookup's result is a function of the store already.
pub proof fn lemma_strictly_sorted_unique(a: Seq<EntryView>, b: Seq<EntryView>)
    requires
        strictly_ascending(a),
        strictly_ascending(b),
        a.to_multiset() == b.to_multiset(),
    ensures
        a == b,
    decreases a.len(),
{
    if a.len() == 0 {
        assert(a.len() == a.to_multiset().len());
        assert(b.len() == b.to_multiset().len());
        assert(b.len() == 0);
        assert(a =~= b);
    } else {
        assert(a.len() == a.to_multiset().len());
        assert(b.len() == b.to_multiset().len());
        assert(b.len() == a.len());
        assert(a.to_multiset().contains(a[0]));
        assert(b.to_multiset().contains(b[0]));
        assert(b.to_multiset().contains(a[0]));
        assert(a.to_multiset().contains(b[0]));
        assert(b.contains(a[0]));
        assert(a.contains(b[0]));
        let p = choose|p: int| 0 <= p < b.len() && b[p] == a[0];
        let q = choose|q: int| 0 <= q < a.len() && a[q] == b[0];
        assert(b[0].sn <= b[p].sn);
        assert(a[0].sn <= a[q].sn);
        assert(a[0].sn == b[0].sn);
        assert(p == 0) by {
            if p > 0 {
                assert(b[0].sn < b[p].sn);
            }
        }
        assert(a.remove(0) =~= a.drop_first());
        assert(b.remove(0) =~= b.drop_first());
        assert(a.drop_first().to_multiset() == a.to_multiset().remove(a[0]));
        assert(b.drop_first().to_multiset() == b.to_multiset().remove(b[0]));
        assert(strictly_ascending(a.drop_first()));
        assert(strictly_ascending(b.drop_first()));
        assert(b[0] == a[0]);
        lemma_strictly_sorted_unique(a.drop_first(), b.drop_first());
        assert forall|i: int| 0 <= i < a.len() implies a[i] == b[i] by {
            if i > 0 {
                assert(a[i] == a.drop_first()[i - 1]);
                assert(b[i] == b.drop_first()[i - 1]);
            }
        }
        assert(a =~= b);
    }
}

/// A strictly ascending list never carries a duplicated sequence number.
pub proof fn lemma_strict_no_dup(s: Seq<EntryView>)
    requires
        strictly_ascending(s),
    ensures
        !has_dup_sn(s),
{
}

} // verus!
