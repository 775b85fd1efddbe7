use vstd::prelude::*;

use crate::entry::{decode_entry_sn, entry_sn_of, Entry, EntryView};
use crate::error::{FindEntry, KeriError};
use crate::store::{Commit, KeriStore, ObjectKind, RefTarget, TreeEntry};

verus! {

/// The well-known reference name under which the head of the log is kept.
pub open spec fn head_ref_name() -> Seq<char> {
    "rad/keri/id"@
}

/// The outcome of looking for an entry, in one tree or over the whole
/// ancestry: a store failure (an object the snapshot cannot retrieve),
/// the entry found, or no entry.
pub enum FindOutcome {
    StoreFailed,
    Found(EntryView),
    Absent,
}

impl KeriStore {
    /// What a single tree entry yields. A tree entry of another kind is
    /// no entry; a blob-kind entry whose content identifier names no
    /// blob of the snapshot is a store failure (a failed blob read is
    /// surfaced, never skipped); a blob whose bytes do not decode is no
    /// entry; a blob that decodes is the entry.
    pub open spec fn blob_entry(self, t: TreeEntry) -> FindOutcome {
        if t.kind is Blob {
            match self.spec_blob_content(t.oid) {
                Some(bs) => match entry_sn_of(bs) {
                    Some(sn) => FindOutcome::Found(EntryView { sn, payload: bs }),
                    None => FindOutcome::Absent,
                },
                None => FindOutcome::StoreFailed,
            }
        } else {
            FindOutcome::Absent
        }
    }

    /// Scans a tree's entry list for its first decodable entry. The
    /// first blob that decodes, or the first failed blob read, stops
    /// the scan.
    pub open spec fn scan_entries(self, ents: Seq<TreeEntry>) -> FindOutcome
        decreases ents.len(),
    {
        if ents.len() == 0 {
            FindOutcome::Absent
        } else {
            match self.blob_entry(ents[0]) {
                FindOutcome::Found(v) => FindOutcome::Found(v),
                FindOutcome::StoreFailed => FindOutcome::StoreFailed,
                FindOutcome::Absent => self.scan_entries(ents.drop_first()),
            }
        }
    }

    /// Scans a tree's entry list for the first decodable entry carrying
    /// the target sequence number. A decodable entry with another number
    /// is passed over; a failed blob read stops the scan.
    pub open spec fn scan_entries_sn(self, ents: Seq<TreeEntry>, target: u64) -> FindOutcome
        decreases ents.len(),
    {
        if ents.len() == 0 {
            FindOutcome::Absent
        } else {
            match self.blob_entry(ents[0]) {
                FindOutcome::Found(v) => if v.sn == target {
                    FindOutcome::Found(v)
                } else {
                    self.scan_entries_sn(ents.drop_first(), target)
                },
                FindOutcome::StoreFailed => FindOutcome::StoreFailed,
                FindOutcome::Absent => self.scan_entries_sn(ents.drop_first(), target),
            }
        }
    }

    /// The entry commit `i` contributes to the log: the first decodable
    /// blob of its tree. An unretrievable tree, like an unretrievable
    /// blob, is a store failure.
    pub open spec fn commit_entry(self, i: int) -> FindOutcome {
        match self.spec_tree_entries(self.commits@[i].tree) {
            Some(es) => self.scan_entries(es),
            None => FindOutcome::StoreFailed,
        }
    }

    /// The first decodable blob of commit `i`'s tree carrying the target
    /// sequence number, with store failures surfaced as for
    /// `commit_entry`.
    pub open spec fn commit_find_sn(self, i: int, target: u64) -> FindOutcome {
        match self.spec_tree_entries(self.commits@[i].tree) {
            Some(es) => self.scan_entries_sn(es, target),
            None => FindOutcome::StoreFailed,
        }
    }

    /// Head resolution, as a value: the index of the commit the
    /// well-known reference points at, or the reason resolution fails.
    pub open spec fn spec_head(self) -> Result<int, FindEntry> {
        match self.spec_ref_target(head_ref_name()) {
            None => Err(FindEntry::Empty),
            Some(t) => match t {
                RefTarget::Symbolic { .. } => Err(FindEntry::UnsupportedTarget),
                RefTarget::Direct { oid } => match self.spec_commit_index(oid) {
                    None => Err(FindEntry::FindCommit),
                    Some(i) => Ok(i),
                },
            },
        }
    }

    /// Scans one commit's tree for an entry. With `sn` given, the first
    /// decodable blob carrying that sequence number is returned; without
    /// it, the first decodable blob. Tree entries of other kinds and
    /// blobs that do not decode are skipped; a tree or blob the snapshot
    /// cannot retrieve is a store failure, surfaced and never skipped.
    #[verifier::loop_isolation(false)]
    pub(crate) fn log_entry_in_commit(&self, sn: Option<u64>, idx: usize) -> (r: Result<
        Option<Entry>,
        KeriError,
    >)
        requires
            idx < self.commits@.len(),
        ensures
            ({
                let outcome = match sn {
                    Some(t) => self.commit_find_sn(idx as int, t),
                    None => self.commit_entry(idx as int),
                };
                match r {
                    Ok(o) => match o {
                        Some(e) => outcome == FindOutcome::Found(e@),
                        None => outcome == FindOutcome::Absent,
                    },
                    Err(e) => e == KeriError::Git && outcome == FindOutcome::StoreFailed,
                }
            }),
    {
        let ti = match self.find_tree(self.commits[idx].tree) {
            Some(ti) => ti,
            None => {
                return Err(KeriError::Git);
            },
        };
        let ents = &self.trees[ti].entries;
        let ghost all: Seq<TreeEntry> = ents@;
        assert(ents@.skip(0) =~= ents@);
        let n = ents.len();
        let mut j: usize = 0;
        while j < n
            invariant
                j <= n,
                n == ents@.len(),
                ents@ == all,
                match sn {
                    None => self.scan_entries(all) == self.scan_entries(all.skip(j as int)),
                    Some(t) => self.scan_entries_sn(all, t) == self.scan_entries_sn(
                        all.skip(j as int),
                        t,
                    ),
                },
            decreases n - j,
        {
            assert(all.skip(j as int)[0] == all[j as int]);
            assert(all.skip(j as int).drop_first() =~= all.skip(j as int + 1));
            let te = ents[j];
            if matches!(te.kind, ObjectKind::Blob) {
                let bi = match self.find_blob(te.oid) {
                    Some(bi) => bi,
                    None => {
                        proof {
                            assert(self.blob_entry(all[j as int]) == FindOutcome::StoreFailed);
                        }
                        return Err(KeriError::Git);
                    },
                };
                let content = &self.blobs[bi].content;
                if let Some(got) = decode_entry_sn(content) {
                    let take = match sn {
                        Some(t) => got == t,
                        None => true,
                    };
                    if take {
                        proof {
                            assert(self.blob_entry(all[j as int]) == FindOutcome::Found(
                                EntryView { sn: got, payload: content@ },
                            ));
                        }
                        let payload = copy_bytes(content);
                        let e = Entry { sn: got, payload };
                        return Ok(Some(e));
                    }
                }
            }
            j += 1;
        }
        assert(all.skip(n as int).len() == 0);
        Ok(None)
    }

    /// Point lookup, as a value: the outcome of scanning the commits at
    /// indices `j` down to `0`, newest first, taking only commits in the
    /// ancestry of `h`. The first ancestry commit with an unretrievable
    /// tree or blob stops the scan as a store failure; the first one
    /// whose tree holds a decodable entry with the target sequence
    /// number yields that entry; a scan that exhausts the ancestry
    /// yields nothing.
    pub open spec fn find_from(self, h: int, j: int, target: u64) -> FindOutcome
        decreases j + 1,
    {
        if j < 0 {
            FindOutcome::Absent
        } else if self.reachable(h, j) {
            match self.commit_find_sn(j, target) {
                FindOutcome::StoreFailed => FindOutcome::StoreFailed,
                FindOutcome::Found(e) => FindOutcome::Found(e),
                FindOutcome::Absent => self.find_from(h, j - 1, target),
            }
        } else {
            self.find_from(h, j - 1, target)
        }
    }

    /// Finds the entry of the log carrying the given sequence number, or
    /// `None` where no commit of the head's ancestry holds one. Commits
    /// are examined in one fixed deterministic order: newest first, by
    /// snapshot position. A missing head reference is `EmptyLog`; other
    /// resolution failures and store failures are surfaced unchanged.
    #[verifier::loop_isolation(false)]
    pub fn log_entry_sn(&self, sn: u64) -> (r: Result<Option<Entry>, KeriError>)
        requires
            self.wf(),
        ensures
            match r {
                Ok(o) => {
                    &&& self.spec_head() is Ok
                    &&& {
                        let h = self.spec_head()->Ok_0;
                        match o {
                            Some(e) => self.find_from(h, h, sn) == FindOutcome::Found(e@),
                            None => self.find_from(h, h, sn) == FindOutcome::Absent,
                        }
                    }
                },
                Err(e) => match e {
                    KeriError::Git => self.spec_head() is Ok && self.find_from(
                        self.spec_head()->Ok_0,
                        self.spec_head()->Ok_0,
                        sn,
                    ) == FindOutcome::StoreFailed,
                    KeriError::EmptyLog => self.spec_head() == Err::<int, FindEntry>(
                        FindEntry::Empty,
                    ),
                    KeriError::FindRef(fe) => self.spec_head() == Err::<int, FindEntry>(fe)
                        && fe != FindEntry::Empty,
                    _ => false,
                },
            },
    {
        let h = match self.head_index() {
            Ok(h) => h,
            Err(e) => {
                return Err(
                    match e {
                        FindEntry::Empty => KeriError::EmptyLog,
                        _ => KeriError::FindRef(e),
                    },
                );
            },
        };
        let marks = self.ancestry_marks(h);
        let n = self.commits.len();
        assert(h < n);
        let mut j: usize = h + 1;
        while j > 0
            invariant
                j <= h + 1,
                self.find_from(h as int, h as int, sn) == self.find_from(
                    h as int,
                    (j as int) - 1,
                    sn,
                ),
            decreases j,
        {
            let i = j - 1;
            if marks[i] {
                match self.log_entry_in_commit(Some(sn), i) {
                    Err(_) => {
                        return Err(KeriError::Git);
                    },
                    Ok(Some(e)) => {
                        return Ok(Some(e));
                    },
                    Ok(None) => {},
                }
            }
            j -= 1;
        }
        Ok(None)
    }

    /// Resolves the well-known head reference to the index of the head
    /// commit within the snapshot.
    pub(crate) fn head_index(&self) -> (r: Result<usize, FindEntry>)
        ensures
            match r {
                Ok(h) => self.spec_head() == Ok::<int, FindEntry>(h as int) && h
                    < self.commits@.len(),
                Err(e) => self.spec_head() == Err::<int, FindEntry>(e),
            },
    {
        let name: String = "rad/keri/id".to_owned();
        let rj = match self.find_reference(&name) {
            Some(rj) => rj,
            None => {
                return Err(FindEntry::Empty);
            },
        };
        let oid = match &self.refs[rj].target {
            RefTarget::Direct { oid } => *oid,
            RefTarget::Symbolic { .. } => {
                return Err(FindEntry::UnsupportedTarget);
            },
        };
        match self.find_commit(oid) {
            Some(h) => Ok(h),
            None => Err(FindEntry::FindCommit),
        }
    }

    /// Resolves the head reference of the log to its commit. Fails with
    /// `Empty` where the reference does not exist, `UnsupportedTarget`
    /// where it is symbolic, and `FindCommit` where its target is not a
    /// retrievable commit.
    pub fn log_head(&self) -> (r: Result<Commit, FindEntry>)
        ensures
            match r {
                Ok(c) => {
                    &&& self.spec_head() is Ok
                    &&& {
                        let h = self.spec_head()->Ok_0;
                        &&& c.id == self.commits@[h].id
                        &&& c.parents@ == self.commits@[h].parent_ids@
                        &&& c.tree == self.commits@[h].tree
                    }
                },
                Err(e) => self.spec_head() == Err::<int, FindEntry>(e),
            },
    {
        let h = match self.head_index() {
            Ok(h) => h,
            Err(e) => {
                return Err(e);
            },
        };
        let rec = &self.commits[h];
        let parents = copy_u64s(&rec.parent_ids);
        Ok(Commit { id: rec.id, parents, tree: rec.tree })
    }
}

/// Copies a byte vector element by element.
pub(crate) fn copy_bytes(v: &Vec<u8>) -> (r: Vec<u8>)
    ensures
        r@ == v@,
{
    let mut r: Vec<u8> = Vec::new();
    let n = v.len();
    let mut i: usize = 0;
    while i < n
        invariant
            i <= n,
            n == v@.len(),
            r@ == v@.take(i as int),
        decreases n - i,
    {
        r.push(v[i]);
        assert(r@ =~= v@.take(i as int + 1));
        i += 1;
    }
    assert(v@.take(n as int) =~= v@);
    r
}

/// Copies a vector of identifiers element by element.
pub(crate) fn copy_u64s(v: &Vec<u64>) -> (r: Vec<u64>)
    ensures
        r@ == v@,
{
    let mut r: Vec<u64> = Vec::new();
    let n = v.len();
    let mut i: usize = 0;
    while i < n
        invariant
            i <= n,
            n == v@.len(),
            r@ == v@.take(i as int),
        decreases n - i,
    {
        r.push(v[i]);
        assert(r@ =~= v@.take(i as int + 1));
        i += 1;
    }
    assert(v@.take(n as int) =~= v@);
    r
}

} // verus!
