use keri_git::entry::Entry;
use keri_git::error::{FindEntry, Init, KeriError};
use keri_git::store::{BlobRec, Commit, KeriStore, ObjectKind, RefEntry, RefTarget, TreeEntry, TreeRec};

fn entry_payload(sn_hex: &str) -> Vec<u8> {
    format!(
        "{{\"timestamp\":\"2022-03-01T12:00:00+00:00\",\"signed_event_message\":{{\"event_message\":{{\"v\":\"KERI10JSON00017e_\",\"t\":\"icp\",\"d\":\"ELYk-z-SuTIeDncLr6GhwVUKnv3n3F1bF18qkXNd2bpk\",\"i\":\"ELYk-z-SuTIeDncLr6GhwVUKnv3n3F1bF18qkXNd2bpk\",\"s\":\"{}\",\"kt\":\"1\",\"k\":[],\"n\":\"\",\"bt\":\"0\",\"b\":[],\"c\":[],\"a\":[]}},\"signatures\":[],\"delegator_seal\":null}}}}",
        sn_hex
    )
    .into_bytes()
}

fn head_ref(oid: u64) -> RefEntry {
    RefEntry { name: String::from("rad/keri/id"), target: RefTarget::Direct { oid } }
}

fn blob_tree(id: u64, blob_ids: &[u64]) -> TreeRec {
    TreeRec {
        id,
        entries: blob_ids
            .iter()
            .map(|&oid| TreeEntry { kind: ObjectKind::Blob, oid })
            .collect(),
    }
}

/// A linear chain of commits, one entry blob per commit, head ref at the
/// last commit. Sequence numbers are given newest-last as hex strings.
fn linear_store(sn_hexes: &[&str]) -> KeriStore {
    let mut refs = Vec::new();
    let mut commits = Vec::new();
    let mut trees = Vec::new();
    let mut blobs = Vec::new();
    for (i, sn) in sn_hexes.iter().enumerate() {
        let i = i as u64;
        blobs.push(BlobRec { id: 300 + i, content: entry_payload(sn) });
        trees.push(blob_tree(200 + i, &[300 + i]));
        let parents = if i == 0 { vec![] } else { vec![100 + i - 1] };
        commits.push(Commit { id: 100 + i, parents, tree: 200 + i });
    }
    if !sn_hexes.is_empty() {
        refs.push(head_ref(100 + sn_hexes.len() as u64 - 1));
    }
    KeriStore::open(refs, commits, trees, blobs).unwrap()
}

fn sns(entries: &[Entry]) -> Vec<u64> {
    entries.iter().map(|e| e.sn).collect()
}

#[test]
fn linear_three_reconstructs_in_order() {
    let store = linear_store(&["0", "1", "2"]);
    let entries = store.log_entries(None).unwrap();
    assert_eq!(sns(&entries), vec![0, 1, 2]);
    assert_eq!(entries[0].payload, entry_payload("0"));
    assert_eq!(entries[2].payload, entry_payload("2"));
}

#[test]
fn find_present_sequence_numbers() {
    let store = linear_store(&["0", "1", "2"]);
    for sn in 0..3u64 {
        let found = store.log_entry_sn(sn).unwrap().unwrap();
        assert_eq!(found.sn, sn);
        assert_eq!(found.payload, entry_payload(&format!("{:x}", sn)));
    }
}

#[test]
fn find_absent_sequence_number_is_none() {
    let store = linear_store(&["0", "1", "2"]);
    assert_eq!(store.log_entry_sn(3).unwrap(), None);
    assert_eq!(store.log_entry_sn(u64::MAX).unwrap(), None);
}

#[test]
fn missing_reference_is_empty_log() {
    let store = KeriStore::open(vec![], vec![], vec![], vec![]).unwrap();
    assert!(matches!(store.log_head(), Err(FindEntry::Empty)));
    assert!(matches!(store.log_entry_sn(0), Err(KeriError::EmptyLog)));
    assert!(matches!(store.log_entries(None), Err(KeriError::EmptyLog)));
}

#[test]
fn head_only_commit_point_lookup() {
    let store = linear_store(&["5"]);
    let found = store.log_entry_sn(5).unwrap().unwrap();
    assert_eq!(found.sn, 5);
    assert_eq!(store.log_entry_sn(6).unwrap(), None);
}

#[test]
fn hex_sequence_numbers_decode() {
    let store = linear_store(&["a"]);
    let found = store.log_entry_sn(10).unwrap().unwrap();
    assert_eq!(found.sn, 10);
    assert_eq!(store.log_entry_sn(0).unwrap(), None);
}

#[test]
fn non_entry_blobs_are_ignored() {
    let junk = b"unrelated file contents".to_vec();
    let store = KeriStore::open(
        vec![head_ref(100)],
        vec![Commit { id: 100, parents: vec![], tree: 200 }],
        vec![blob_tree(200, &[300, 301])],
        vec![
            BlobRec { id: 300, content: junk },
            BlobRec { id: 301, content: entry_payload("7") },
        ],
    )
    .unwrap();
    let found = store.log_entry_sn(7).unwrap().unwrap();
    assert_eq!(found.sn, 7);
    let entries = store.log_entries(None).unwrap();
    assert_eq!(sns(&entries), vec![7]);
}

#[test]
fn merge_reconstructs_both_branches() {
    // root (sn 0) is the shared ancestor of two branches (sn 1, sn 2);
    // the head (sn 3) merges them.
    let store = KeriStore::open(
        vec![head_ref(103)],
        vec![
            Commit { id: 100, parents: vec![], tree: 200 },
            Commit { id: 101, parents: vec![100], tree: 201 },
            Commit { id: 102, parents: vec![100], tree: 202 },
            Commit { id: 103, parents: vec![101, 102], tree: 203 },
        ],
        vec![
            blob_tree(200, &[300]),
            blob_tree(201, &[301]),
            blob_tree(202, &[302]),
            blob_tree(203, &[303]),
        ],
        vec![
            BlobRec { id: 300, content: entry_payload("0") },
            BlobRec { id: 301, content: entry_payload("1") },
            BlobRec { id: 302, content: entry_payload("2") },
            BlobRec { id: 303, content: entry_payload("3") },
        ],
    )
    .unwrap();
    let entries = store.log_entries(None).unwrap();
    assert_eq!(sns(&entries), vec![0, 1, 2, 3]);
    for sn in 0..4u64 {
        assert_eq!(store.log_entry_sn(sn).unwrap().unwrap().sn, sn);
    }
}

#[test]
fn head_without_entry_is_empty_log_but_lookup_falls_through() {
    // The parent holds sn 4; the head commit's tree has no decodable blob.
    let store = KeriStore::open(
        vec![head_ref(101)],
        vec![
            Commit { id: 100, parents: vec![], tree: 200 },
            Commit { id: 101, parents: vec![100], tree: 201 },
        ],
        vec![blob_tree(200, &[300]), blob_tree(201, &[])],
        vec![BlobRec { id: 300, content: entry_payload("4") }],
    )
    .unwrap();
    assert!(matches!(store.log_entries(None), Err(KeriError::EmptyLog)));
    let found = store.log_entry_sn(4).unwrap().unwrap();
    assert_eq!(found.sn, 4);
}

#[test]
fn head_without_entry_and_without_parents() {
    let store = KeriStore::open(
        vec![head_ref(100)],
        vec![Commit { id: 100, parents: vec![], tree: 200 }],
        vec![blob_tree(200, &[])],
        vec![],
    )
    .unwrap();
    assert!(matches!(store.log_entries(None), Err(KeriError::EmptyLog)));
    assert_eq!(store.log_entry_sn(0).unwrap(), None);
}

#[test]
fn truncated_chain_is_reported() {
    // The head holds sn 1 and has a parent, but the whole parent
    // ancestry yields no decodable entry.
    let store = KeriStore::open(
        vec![head_ref(101)],
        vec![
            Commit { id: 100, parents: vec![], tree: 200 },
            Commit { id: 101, parents: vec![100], tree: 201 },
        ],
        vec![blob_tree(200, &[]), blob_tree(201, &[301])],
        vec![BlobRec { id: 301, content: entry_payload("1") }],
    )
    .unwrap();
    assert!(matches!(store.log_entries(None), Err(KeriError::TruncatedLog)));
}

#[test]
fn duplicate_sequence_number_is_reported() {
    let store = linear_store(&["0", "1", "1"]);
    assert!(matches!(store.log_entries(None), Err(KeriError::DuplicateEntry)));
}

#[test]
fn dangling_tree_is_a_store_failure() {
    let store = KeriStore::open(
        vec![head_ref(101)],
        vec![
            Commit { id: 100, parents: vec![], tree: 999 },
            Commit { id: 101, parents: vec![100], tree: 201 },
        ],
        vec![blob_tree(201, &[301])],
        vec![BlobRec { id: 301, content: entry_payload("1") }],
    )
    .unwrap();
    assert!(matches!(store.log_entries(None), Err(KeriError::Git)));
    assert!(matches!(store.log_entry_sn(0), Err(KeriError::Git)));
}

#[test]
fn malformed_records_are_skipped_not_fatal() {
    // Alongside the good entry: a record whose sequence number is not a
    // hex numeral, and a record missing its event fields. Both must be
    // passed over as non-entries without aborting the scan.
    let bad_hex = String::from_utf8(entry_payload("0"))
        .unwrap()
        .replace("\"s\":\"0\"", "\"s\":\"zz\"")
        .into_bytes();
    let incomplete =
        b"{\"timestamp\":\"2022-03-01T12:00:00+00:00\",\"signed_event_message\":{}}".to_vec();
    let store = KeriStore::open(
        vec![head_ref(100)],
        vec![Commit { id: 100, parents: vec![], tree: 200 }],
        vec![blob_tree(200, &[300, 301, 302])],
        vec![
            BlobRec { id: 300, content: bad_hex },
            BlobRec { id: 301, content: incomplete },
            BlobRec { id: 302, content: entry_payload("3") },
        ],
    )
    .unwrap();
    assert_eq!(store.log_entry_sn(3).unwrap().unwrap().sn, 3);
    assert_eq!(sns(&store.log_entries(None).unwrap()), vec![3]);
}

#[test]
fn dangling_blob_is_a_store_failure() {
    // The head's tree names a blob the snapshot does not hold: a failed
    // blob read must surface, not pass as a miss.
    let store = KeriStore::open(
        vec![head_ref(100)],
        vec![Commit { id: 100, parents: vec![], tree: 200 }],
        vec![blob_tree(200, &[999])],
        vec![],
    )
    .unwrap();
    assert!(matches!(store.log_entry_sn(0), Err(KeriError::Git)));
    assert!(matches!(store.log_entries(None), Err(KeriError::Git)));
}

#[test]
fn symbolic_reference_is_unsupported() {
    let store = KeriStore::open(
        vec![RefEntry {
            name: String::from("rad/keri/id"),
            target: RefTarget::Symbolic { name: String::from("refs/heads/main") },
        }],
        vec![],
        vec![],
        vec![],
    )
    .unwrap();
    assert!(matches!(store.log_head(), Err(FindEntry::UnsupportedTarget)));
    assert!(matches!(
        store.log_entry_sn(0),
        Err(KeriError::FindRef(FindEntry::UnsupportedTarget))
    ));
    assert!(matches!(
        store.log_entries(None),
        Err(KeriError::FindRef(FindEntry::UnsupportedTarget))
    ));
}

#[test]
fn reference_to_missing_commit_is_find_commit() {
    let store = KeriStore::open(vec![head_ref(4242)], vec![], vec![], vec![]).unwrap();
    assert!(matches!(store.log_head(), Err(FindEntry::FindCommit)));
    assert!(matches!(
        store.log_entries(None),
        Err(KeriError::FindRef(FindEntry::FindCommit))
    ));
}

#[test]
fn reconstruction_from_explicit_commit() {
    let store = linear_store(&["0", "1", "2"]);
    let head = store.log_head().unwrap();
    assert_eq!(head.id, 102);
    assert_eq!(head.parents, vec![101]);
    let entries = store.log_entries(Some(head)).unwrap();
    assert_eq!(sns(&entries), vec![0, 1, 2]);
    let missing = Commit { id: 4242, parents: vec![], tree: 0 };
    assert!(matches!(
        store.log_entries(Some(missing)),
        Err(KeriError::FindRef(FindEntry::FindCommit))
    ));
}

#[test]
fn repeated_calls_are_idempotent() {
    let store = linear_store(&["0", "1", "2"]);
    let a = store.log_entries(None).unwrap();
    let b = store.log_entries(None).unwrap();
    assert_eq!(a, b);
    let fa = store.log_entry_sn(1).unwrap();
    let fb = store.log_entry_sn(1).unwrap();
    assert_eq!(fa, fb);
}

#[test]
fn open_rejects_forward_or_missing_parents() {
    // A parent identifier that names no earlier commit is inconsistent.
    let r = KeriStore::open(
        vec![],
        vec![
            Commit { id: 100, parents: vec![101], tree: 200 },
            Commit { id: 101, parents: vec![], tree: 201 },
        ],
        vec![],
        vec![],
    );
    assert!(matches!(r, Err(Init::Git)));
    let r = KeriStore::open(
        vec![],
        vec![Commit { id: 100, parents: vec![4242], tree: 200 }],
        vec![],
        vec![],
    );
    assert!(matches!(r, Err(Init::Git)));
}
