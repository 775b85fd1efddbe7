use vstd::prelude::*;

use crate::error::Init;

verus! {

/// The target of a named reference: either a commit identifier, or the
/// name of another reference (an indirect target, which the resolver
/// does not follow).
pub enum RefTarget {
    Direct { oid: u64 },
    Symbolic { name: String },
}

/// One named reference of the store.
pub struct RefEntry {
    pub name: String,
    pub target: RefTarget,
}

/// The kind of a tree entry. Only blobs can hold log entries; anything
/// else is ignored by the resolver.
#[derive(Clone, Copy, PartialEq, Eq, Structural)]
pub enum ObjectKind {
    Blob,
    Other,
}

/// One entry of a tree: its kind and the content identifier it points at.
#[derive(Clone, Copy, PartialEq, Eq, Structural)]
pub struct TreeEntry {
    pub kind: ObjectKind,
    pub oid: u64,
}

/// One tree of the store: an enumerable list of entries.
pub struct TreeRec {
    pub id: u64,
    pub entries: Vec<TreeEntry>,
}

/// One blob of the store: an immutable byte payload.
pub struct BlobRec {
    pub id: u64,
    pub content: Vec<u8>,
}

/// A commit as handed to and out of the store: its identifier, the
/// identifiers of its parents in declaration order, and its tree.
pub struct Commit {
    pub id: u64,
    pub parents: Vec<u64>,
    pub tree: u64,
}

/// A commit as the snapshot holds it: besides the identifiers, the index
/// of each parent within the snapshot's commit list. Parents stand at
/// smaller indices than their children, which makes the ancestry graph
/// acyclic by construction.
pub struct CommitRec {
    pub id: u64,
    pub parent_ids: Vec<u64>,
    pub parent_idxs: Vec<usize>,
    pub tree: u64,
}

/// A read-only snapshot of the content-addressed object store: named
/// references, commits (each with parents and a tree identifier), trees
/// and blobs. The resolver borrows it for the duration of one call and
/// never mutates it.
pub struct KeriStore {
    pub refs: Vec<RefEntry>,
    pub commits: Vec<CommitRec>,
    pub trees: Vec<TreeRec>,
    pub blobs: Vec<BlobRec>,
}

impl KeriStore {
    /// Well-formedness: every commit's parent indices point strictly
    /// below it and agree with the recorded parent identifiers.
    pub open spec fn wf(self) -> bool {
        forall|i: int|
            0 <= i < self.commits@.len() ==> (#[trigger] self.commits@[i]).wf_at(
                self.commits@,
                i,
            )
    }

    pub open spec fn spec_ref_target(self, name: Seq<char>) -> Option<RefTarget> {
        ref_target_from(self.refs@, name)
    }

    pub open spec fn spec_commit_index(self, id: u64) -> Option<int> {
        commit_index_from(self.commits@, id)
    }

    pub open spec fn spec_tree_entries(self, id: u64) -> Option<Seq<TreeEntry>> {
        tree_entries_from(self.trees@, id)
    }

    pub open spec fn spec_blob_content(self, id: u64) -> Option<Seq<u8>> {
        blob_content_from(self.blobs@, id)
    }
}

impl CommitRec {
    pub open spec fn wf_at(self, commits: Seq<CommitRec>, i: int) -> bool {
        &&& self.parent_idxs@.len() == self.parent_ids@.len()
        &&& forall|k: int|
            0 <= k < self.parent_idxs@.len() ==> {
                &&& (#[trigger] self.parent_idxs@[k]) < i
                &&& commits[self.parent_idxs@[k] as int].id == self.parent_ids@[k]
            }
    }
}

/// The first reference of the list carrying the given name, if any.
pub open spec fn ref_target_from(refs: Seq<RefEntry>, name: Seq<char>) -> Option<RefTarget>
    decreases refs.len(),
{
    if refs.len() == 0 {
        None
    } else if refs[0].name@ == name {
        Some(refs[0].target)
    } else {
        ref_target_from(refs.drop_first(), name)
    }
}

/// The index of the first commit of the list carrying the given
/// identifier, if any.
pub open spec fn commit_index_from(commits: Seq<CommitRec>, id: u64) -> Option<int>
    decreases commits.len(),
{
    if commits.len() == 0 {
        None
    } else if commits[0].id == id {
        Some(0int)
    } else {
        match commit_index_from(commits.drop_first(), id) {
            Some(j) => Some(j + 1),
            None => None,
        }
    }
}

/// The entry list of the first tree carrying the given identifier, if any.
pub open spec fn tree_entries_from(trees: Seq<TreeRec>, id: u64) -> Option<Seq<TreeEntry>>
    decreases trees.len(),
{
    if trees.len() == 0 {
        None
    } else if trees[0].id == id {
        Some(trees[0].entries@)
    } else {
        tree_entries_from(trees.drop_first(), id)
    }
}

/// The content of the first blob carrying the given identifier, if any.
pub open spec fn blob_content_from(blobs: Seq<BlobRec>, id: u64) -> Option<Seq<u8>>
    decreases blobs.len(),
{
    if blobs.len() == 0 {
        None
    } else if blobs[0].id == id {
        Some(blobs[0].content@)
    } else {
        blob_content_from(blobs.drop_first(), id)
    }
}

impl KeriStore {
    /// Reference lookup: the index of the first reference with this name.
    pub(crate) fn find_reference(&self, name: &String) -> (r: Option<usize>)
        ensures
            match r {
                Some(j) => {
                    &&& j < self.refs@.len()
                    &&& self.refs@[j as int].name@ == name@
                    &&& self.spec_ref_target(name@) == Some(self.refs@[j as int].target)
                },
                None => self.spec_ref_target(name@) is None,
            },
    {
        let n = self.refs.len();
        assert(self.refs@.skip(0) =~= self.refs@);
        let mut j: usize = 0;
        while j < n
            invariant
                j <= n,
                n == self.refs@.len(),
                ref_target_from(self.refs@, name@) == ref_target_from(
                    self.refs@.skip(j as int),
                    name@,
                ),
                forall|t: int| 0 <= t < j ==> (#[trigger] self.refs@[t]).name@ != name@,
            decreases n - j,
        {
            assert(self.refs@.skip(j as int)[0] == self.refs@[j as int]);
            if self.refs[j].name == *name {
                return Some(j);
            }
            assert(self.refs@.skip(j as int).drop_first() =~= self.refs@.skip(j as int + 1));
            j += 1;
        }
        assert(self.refs@.skip(n as int).len() == 0);
        None
    }

    /// Commit lookup: the index of the first commit with this identifier.
    pub(crate) fn find_commit(&self, id: u64) -> (r: Option<usize>)
        ensures
            match r {
                Some(j) => {
                    &&& j < self.commits@.len()
                    &&& self.commits@[j as int].id == id
                    &&& self.spec_commit_index(id) == Some(j as int)
                },
                None => self.spec_commit_index(id) is None,
            },
    {
        let n = self.commits.len();
        assert(self.commits@.skip(0) =~= self.commits@);
        let mut j: usize = 0;
        while j < n
            invariant
                j <= n,
                n == self.commits@.len(),
                match commit_index_from(self.commits@, id) {
                    Some(t) => commit_index_from(self.commits@.skip(j as int), id) == Some(
                        t - j,
                    ),
                    None => commit_index_from(self.commits@.skip(j as int), id) is None,
                },
                forall|t: int| 0 <= t < j ==> (#[trigger] self.commits@[t]).id != id,
            decreases n - j,
        {
            assert(self.commits@.skip(j as int)[0] == self.commits@[j as int]);
            if self.commits[j].id == id {
                return Some(j);
            }
            assert(self.commits@.skip(j as int).drop_first() =~= self.commits@.skip(j as int + 1));
            j += 1;
        }
        assert(self.commits@.skip(n as int).len() == 0);
        None
    }

    /// Tree lookup: the index of the first tree with this identifier.
    pub(crate) fn find_tree(&self, id: u64) -> (r: Option<usize>)
        ensures
            match r {
                Some(j) => {
                    &&& j < self.trees@.len()
                    &&& self.spec_tree_entries(id) == Some(self.trees@[j as int].entries@)
                },
                None => self.spec_tree_entries(id) is None,
            },
    {
        let n = self.trees.len();
        assert(self.trees@.skip(0) =~= self.trees@);
        let mut j: usize = 0;
        while j < n
            invariant
                j <= n,
                n == self.trees@.len(),
                tree_entries_from(self.trees@, id) == tree_entries_from(
                    self.trees@.skip(j as int),
                    id,
                ),
            decreases n - j,
        {
            assert(self.trees@.skip(j as int)[0] == self.trees@[j as int]);
            if self.trees[j].id == id {
                return Some(j);
            }
            assert(self.trees@.skip(j as int).drop_first() =~= self.trees@.skip(j as int + 1));
            j += 1;
        }
        assert(self.trees@.skip(n as int).len() == 0);
        None
    }

    /// Blob lookup: the index of the first blob with this identifier.
    pub(crate) fn find_blob(&self, id: u64) -> (r: Option<usize>)
        ensures
            match r {
                Some(j) => {
                    &&& j < self.blobs@.len()
                    &&& self.spec_blob_content(id) == Some(self.blobs@[j as int].content@)
                },
                None => self.spec_blob_content(id) is None,
            },
    {
        let n = self.blobs.len();
        assert(self.blobs@.skip(0) =~= self.blobs@);
        let mut j: usize = 0;
        while j < n
            invariant
                j <= n,
                n == self.blobs@.len(),
                blob_content_from(self.blobs@, id) == blob_content_from(
                    self.blobs@.skip(j as int),
                    id,
                ),
            decreases n - j,
        {
            assert(self.blobs@.skip(j as int)[0] == self.blobs@[j as int]);
            if self.blobs[j].id == id {
                return Some(j);
            }
            assert(self.blobs@.skip(j as int).drop_first() =~= self.blobs@.skip(j as int + 1));
            j += 1;
        }
        assert(self.blobs@.skip(n as int).len() == 0);
        None
    }

    /// Builds a snapshot from plain store data. Each commit lists its
    /// parents by identifier; a parent must already stand earlier in the
    /// commit list (the natural order of an append-only store, where a
    /// commit can only point at objects that existed before it). A
    /// snapshot that breaks this is rejected as inconsistent; every
    /// backward-consistent snapshot is accepted.
    #[verifier::loop_isolation(false)]
    pub fn open(
        refs: Vec<RefEntry>,
        commits: Vec<Commit>,
        trees: Vec<TreeRec>,
        blobs: Vec<BlobRec>,
    ) -> (r: Result<KeriStore, Init>)
        ensures
            match r {
                Ok(s) => {
                    &&& s.wf()
                    &&& s.refs@ == refs@
                    &&& s.trees@ == trees@
                    &&& s.blobs@ == blobs@
                    &&& s.commits@.len() == commits@.len()
                    &&& forall|i: int|
                        0 <= i < commits@.len() ==> {
                            &&& (#[trigger] s.commits@[i]).id == commits@[i].id
                            &&& s.commits@[i].parent_ids@ == commits@[i].parents@
                            &&& s.commits@[i].tree == commits@[i].tree
                        }
                    &&& parents_resolvable(commits@)
                },
                Err(e) => e == Init::Git && !parents_resolvable(commits@),
            },
    {
        let mut out: Vec<CommitRec> = Vec::new();
        let mut i: usize = 0;
        let n = commits.len();
        while i < n
            invariant
                i <= n,
                n == commits@.len(),
                out@.len() == i,
                forall|t: int|
                    0 <= t < i ==> (#[trigger] out@[t]).wf_at(out@, t) && out@[t].id
                        == commits@[t].id && out@[t].parent_ids@ == commits@[t].parents@
                        && out@[t].tree == commits@[t].tree,
            decreases n - i,
        {
            let c = &commits[i];
            let mut idxs: Vec<usize> = Vec::new();
            let mut k: usize = 0;
            let m = c.parents.len();
            while k < m
                invariant
                    k <= m,
                    m == c.parents@.len(),
                    i == out@.len(),
                    idxs@.len() == k,
                    forall|t: int|
                        0 <= t < k ==> {
                            &&& (#[trigger] idxs@[t]) < i
                            &&& out@[idxs@[t] as int].id == c.parents@[t]
                        },
                    forall|t: int|
                        0 <= t < i ==> (#[trigger] out@[t]).wf_at(out@, t) && out@[t].id
                            == commits@[t].id && out@[t].parent_ids@ == commits@[t].parents@
                            && out@[t].tree == commits@[t].tree,
                decreases m - k,
            {
                let pid = c.parents[k];
                let mut found: Option<usize> = None;
                let mut j: usize = 0;
                while j < i
                    invariant
                        j <= i,
                        i == out@.len(),
                        match found {
                            Some(f) => f < i && out@[f as int].id == pid,
                            None => forall|t: int|
                                0 <= t < j ==> (#[trigger] out@[t]).id != pid,
                        },
                    decreases i - j,
                {
                    if out[j].id == pid && found.is_none() {
                        found = Some(j);
                    }
                    j += 1;
                }
                match found {
                    Some(f) => idxs.push(f),
                    None => {
                        proof {
                            assert(commits@[i as int].parents@[k as int] == pid);
                            assert forall|t: int| 0 <= t < i implies commits@[t].id != pid by {
                                assert(out@[t].id != pid);
                                assert(out@[t].id == commits@[t].id);
                            }
                            assert(!parents_resolvable(commits@)) by {
                                if parents_resolvable(commits@) {
                                    assert(parent_resolvable_at(commits@, i as int, k as int));
                                    let jj = choose|jj: int|
                                        0 <= jj < i as int && commits@[jj].id == commits@[
                                            i as int
                                        ].parents@[k as int];
                                    assert(false);
                                }
                            }
                        }
                        return Err(Init::Git);
                    },
                }
                k += 1;
            }
            let mut pids: Vec<u64> = Vec::new();
            let mut k2: usize = 0;
            while k2 < m
                invariant
                    k2 <= m,
                    m == c.parents@.len(),
                    pids@.len() == k2,
                    forall|t: int| 0 <= t < k2 ==> (#[trigger] pids@[t]) == c.parents@[t],
                decreases m - k2,
            {
                pids.push(c.parents[k2]);
                k2 += 1;
            }
            assert(pids@ =~= c.parents@);
            let rec = CommitRec { id: c.id, parent_ids: pids, parent_idxs: idxs, tree: c.tree };
            out.push(rec);
            i += 1;
        }
        proof {
            assert forall|a: int, t: int|
                0 <= a < commits@.len() && 0 <= t
                    < commits@[a].parents@.len() implies parent_resolvable_at(
                commits@,
                a,
                t,
            ) by {
                assert(out@[a].wf_at(out@, a));
                assert(out@[a].parent_idxs@[t] < a);
                let p = out@[a].parent_idxs@[t] as int;
                assert(out@[p].id == out@[a].parent_ids@[t]);
                assert(0 <= p < a && commits@[p].id == commits@[a].parents@[t]);
            }
            assert(parents_resolvable(commits@));
        }
        Ok(KeriStore { refs, commits: out, trees, blobs })
    }
}

/// The `k`-th parent identifier of commit `i` names a commit that
/// stands earlier in the list.
pub open spec fn parent_resolvable_at(commits: Seq<Commit>, i: int, k: int) -> bool {
    exists|j: int| 0 <= j < i && commits[j].id == commits[i].parents@[k]
}

/// Every parent identifier of every commit names a commit that stands
/// earlier in the list.
pub open spec fn parents_resolvable(commits: Seq<Commit>) -> bool {
    forall|i: int, k: int|
        0 <= i < commits.len() && 0 <= k < commits[i].parents@.len()
            ==> #[trigger] parent_resolvable_at(commits, i, k)
}

} // verus!
