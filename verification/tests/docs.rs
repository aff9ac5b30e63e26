//! Document codec, merge, migration and index behaviour.

use automerge::transaction::Transactable;
use trx_core::crdt_store::CrdtStore;
use trx_core::doc::issue_from_bytes;
use trx_core::doc::issue_to_bytes;
use trx_core::issue::DependencyType;
use trx_core::issue::Issue;
use trx_core::issue::IssueType;
use trx_core::issue::Status;
use trx_core::store::Store;
use trx_core::unified::migrate_v1_to_v2;
use trx_core::unified::rollback_v2_to_v1;
use trx_core::unified::UnifiedStore;
use trx_core::config::StorageVersion;

fn full_issue() -> Issue {
    let mut issue = Issue::new("test-123".to_string(), "Test Issue".to_string());
    issue.description = Some("A test description".to_string());
    issue.status = Status::InProgress;
    issue.priority = 1;
    issue.issue_type = IssueType::Bug;
    issue.labels = vec!["bug".to_string(), "urgent".to_string()];
    issue.created_at = 1_700_000_000_123;
    issue.updated_at = 1_700_000_100_456;
    issue.closed_at = Some(1_700_000_200_789);
    issue.deleted_at = None;
    issue.created_by = Some("alice".to_string());
    issue.close_reason = Some("done".to_string());
    issue.assignee = Some("bob".to_string());
    issue.notes = Some("line one\nline two".to_string());
    issue.original_type = None;
    issue.deleted_by = None;
    issue.delete_reason = None;
    issue.add_dependency_at("test-456".to_string(), DependencyType::ParentChild, 1_700_000_000_500);
    issue.add_dependency_at("test-789".to_string(), DependencyType::Blocks, 1_700_000_000_600);
    issue
}

fn assert_issues_equal(a: &Issue, b: &Issue) {
    assert_eq!(a.id, b.id);
    assert_eq!(a.title, b.title);
    assert_eq!(a.description, b.description);
    assert_eq!(a.status, b.status);
    assert_eq!(a.priority, b.priority);
    assert_eq!(a.issue_type, b.issue_type);
    assert_eq!(a.labels, b.labels);
    assert_eq!(a.created_at, b.created_at);
    assert_eq!(a.updated_at, b.updated_at);
    assert_eq!(a.closed_at, b.closed_at);
    assert_eq!(a.deleted_at, b.deleted_at);
    assert_eq!(a.created_by, b.created_by);
    assert_eq!(a.close_reason, b.close_reason);
    assert_eq!(a.assignee, b.assignee);
    assert_eq!(a.notes, b.notes);
    assert_eq!(a.original_type, b.original_type);
    assert_eq!(a.deleted_by, b.deleted_by);
    assert_eq!(a.delete_reason, b.delete_reason);
    assert_eq!(a.dependencies.len(), b.dependencies.len());
    for (x, y) in a.dependencies.iter().zip(b.dependencies.iter()) {
        assert_eq!(x.issue_id, y.issue_id);
        assert_eq!(x.depends_on_id, y.depends_on_id);
        assert_eq!(x.dep_type, y.dep_type);
        assert_eq!(x.created_at, y.created_at);
        assert_eq!(x.created_by, y.created_by);
    }
}

#[test]
fn test_issue_roundtrip() {
    let store = CrdtStore::new();

    let mut issue = Issue::new("test-123".to_string(), "Test Issue".to_string());
    issue.description = Some("A test description".to_string());
    issue.priority = 1;
    issue.labels = vec!["bug".to_string(), "urgent".to_string()];

    let doc = store.issue_to_doc(&issue).unwrap();
    let roundtrip = store.doc_to_issue(&doc).unwrap();

    assert_eq!(issue.id, roundtrip.id);
    assert_eq!(issue.title, roundtrip.title);
    assert_eq!(issue.description, roundtrip.description);
    assert_eq!(issue.priority, roundtrip.priority);
    assert_eq!(issue.labels, roundtrip.labels);
}

#[test]
fn test_full_roundtrip_through_bytes() {
    let issue = full_issue();
    let bytes = issue_to_bytes(&issue).unwrap();
    let back = issue_from_bytes(&bytes).unwrap();
    assert_issues_equal(&issue, &back);
}

#[test]
fn test_tombstone_roundtrip() {
    let mut issue = full_issue();
    issue.delete_at(Some("carol".to_string()), Some("duplicate".to_string()), 1_700_000_300_000);
    let bytes = issue_to_bytes(&issue).unwrap();
    let back = issue_from_bytes(&bytes).unwrap();
    assert_issues_equal(&issue, &back);
    assert_eq!(back.status, Status::Tombstone);
    assert_eq!(back.deleted_by.as_deref(), Some("carol"));
}

#[test]
fn test_doc_without_id_is_rejected() {
    let mut doc = automerge::AutoCommit::new();
    doc.put(automerge::ROOT, "title", "No id here").unwrap();
    let bytes = doc.save();
    match issue_from_bytes(&bytes) {
        Err(trx_core::error::Error::Other(_)) => (),
        _ => panic!("expected a decode error for a document without an id"),
    }
}

#[test]
fn test_garbage_bytes_are_rejected() {
    assert!(issue_from_bytes(b"not a document").is_err());
}

#[test]
fn test_merge_keeps_field_disjoint_edits() {
    let issue = full_issue();
    let base = issue_to_bytes(&issue).unwrap();

    // Two clones diverge from the same document: one renames the issue,
    // the other reassigns it.
    let mut ours = automerge::AutoCommit::load(&base).unwrap();
    ours.put(automerge::ROOT, "title", "Renamed in ours").unwrap();
    let ours_bytes = ours.save();

    let mut theirs = automerge::AutoCommit::load(&base).unwrap();
    theirs.put(automerge::ROOT, "assignee", "dave").unwrap();
    let theirs_bytes = theirs.save();

    let merged = CrdtStore::merge_conflict(&base, &ours_bytes, &theirs_bytes).unwrap();
    let back = issue_from_bytes(&merged).unwrap();
    assert_eq!(back.title, "Renamed in ours");
    assert_eq!(back.assignee.as_deref(), Some("dave"));
    // Untouched fields survive from the shared base.
    assert_eq!(back.description.as_deref(), Some("A test description"));
}

#[test]
fn test_merge_is_commutative_and_idempotent() {
    let issue = full_issue();
    let base = issue_to_bytes(&issue).unwrap();
    let mut ours = automerge::AutoCommit::load(&base).unwrap();
    ours.put(automerge::ROOT, "title", "Ours").unwrap();
    let ours_bytes = ours.save();
    let mut theirs = automerge::AutoCommit::load(&base).unwrap();
    theirs.put(automerge::ROOT, "notes", "their notes").unwrap();
    let theirs_bytes = theirs.save();

    // Merging in either order converges to the same issue.
    let ab = CrdtStore::merge_conflict(&base, &ours_bytes, &theirs_bytes).unwrap();
    let ba = CrdtStore::merge_conflict(&base, &theirs_bytes, &ours_bytes).unwrap();
    assert_issues_equal(&issue_from_bytes(&ab).unwrap(), &issue_from_bytes(&ba).unwrap());

    // Merging one side in again changes nothing.
    let again = CrdtStore::merge_conflict(&base, &ab, &theirs_bytes).unwrap();
    assert_issues_equal(&issue_from_bytes(&ab).unwrap(), &issue_from_bytes(&again).unwrap());
}

#[test]
fn test_merge_with_empty_sides() {
    let issue = full_issue();
    let bytes = issue_to_bytes(&issue).unwrap();
    let merged = CrdtStore::merge_conflict(&[], &bytes, &[]).unwrap();
    let back = issue_from_bytes(&merged).unwrap();
    assert_issues_equal(&issue, &back);
}

#[test]
fn test_conflict_candidates() {
    let names = vec![
        "aaa.automerge".to_string(),
        "aaa.automerge.LOCAL".to_string(),
        "aaa.automerge.REMOTE".to_string(),
        "aaa.automerge.BASE".to_string(),
        "bbb.automerge".to_string(),
        "bbb.automerge.LOCAL".to_string(),
        "ccc.automerge".to_string(),
        "notes.txt".to_string(),
    ];
    // Only aaa has both LOCAL and REMOTE artifacts.
    let plan = CrdtStore::conflict_candidates(&names);
    assert_eq!(plan, vec!["aaa.automerge".to_string()]);
}

#[test]
fn test_load_from_images_skips_bad_files() {
    let mut a = full_issue();
    a.id = "img-1".to_string();
    a.dependencies.clear();
    let mut a2 = a.clone();
    a2.title = "Renamed later".to_string();
    let mut b = Issue::new("img-2".to_string(), "Second".to_string());
    b.created_at = 1_600_000_000_000;
    b.updated_at = 1_600_000_000_000;
    let images = vec![
        issue_to_bytes(&a).unwrap(),
        b"not a document".to_vec(),
        issue_to_bytes(&b).unwrap(),
        issue_to_bytes(&a2).unwrap(),
    ];
    let (store, skipped) = CrdtStore::load_from_images(&images);
    assert_eq!(skipped, 1);
    assert_eq!(store.len(), 2);
    // The later image of the same id wins.
    assert_eq!(store.get("img-1").unwrap().title, "Renamed later");
    assert_eq!(store.get("img-2").unwrap().title, "Second");
}

#[test]
fn test_migrate_and_rollback() {
    let mut v1 = Store::new();
    let mut one = full_issue();
    one.id = "m-1".to_string();
    one.dependencies.clear();
    let mut two = Issue::new("m-2".to_string(), "Second".to_string());
    two.created_at = 1_600_000_000_000;
    two.updated_at = 1_600_000_000_000;
    let mut three = Issue::new("m-3".to_string(), "Third".to_string());
    three.created_at = 1_650_000_000_000;
    three.updated_at = 1_650_000_000_000;
    three.delete_at(Some("eve".to_string()), None, 1_660_000_000_000);
    v1.create(one).unwrap();
    v1.create(two).unwrap();
    v1.create(three).unwrap();

    // A dry run counts without building anything.
    let (dry, none) = migrate_v1_to_v2(&v1, true).unwrap();
    assert_eq!(dry.issues_migrated, 3);
    assert!(dry.dry_run);
    assert!(none.is_none());

    // The real migration produces one document file per issue, tombstones
    // too, each decoding back to the record it came from.
    let (result, built) = migrate_v1_to_v2(&v1, false).unwrap();
    assert_eq!(result.issues_migrated, 3);
    assert!(!result.dry_run);
    let (v2, files) = built.unwrap();
    assert_eq!(files.len(), 3);
    for file in &files {
        assert!(file.name.ends_with(".automerge"));
        let decoded = issue_from_bytes(&file.bytes).unwrap();
        let source = v1.get(&decoded.id).unwrap();
        assert_issues_equal(source, &decoded);
    }

    // Rolling back reproduces the same three issues, field for field.
    let (rolled, back) = rollback_v2_to_v1(&v2, false);
    assert_eq!(rolled.issues_migrated, 3);
    let v1_again = back.unwrap();
    assert_eq!(v1_again.len(), 3);
    for id in ["m-1", "m-2", "m-3"] {
        assert_issues_equal(v1.get(id).unwrap(), v1_again.get(id).unwrap());
    }
}

#[test]
fn test_unified_dispatch() {
    let mut store = UnifiedStore::V2(CrdtStore::new());
    assert_eq!(store.version(), StorageVersion::V2);
    store.create(Issue::new("d-1".to_string(), "One".to_string())).unwrap();
    assert!(store.get("d-1").is_some());
    assert!(store.get("d-9").is_none());
    assert_eq!(store.list(true).len(), 1);
    assert_eq!(store.next_child_num("d-1"), 1);
    assert!(store.issues_md_content().is_some());

    let v1 = UnifiedStore::V1(Store::new());
    assert_eq!(v1.version(), StorageVersion::V1);
    assert!(v1.issues_md_content().is_none());
}

#[test]
fn test_issues_md_content() {
    let mut store = CrdtStore::new();
    let mut urgent = Issue::new("md-1".to_string(), "Urgent work".to_string());
    urgent.priority = 0;
    urgent.created_at = 1_700_000_000_000;
    let mut later = Issue::new("md-2".to_string(), "Later work".to_string());
    later.priority = 3;
    later.created_at = 1_700_000_000_000;
    let mut done = Issue::new("md-3".to_string(), "Done work".to_string());
    done.close_at(Some("shipped".to_string()), 1_704_153_600_000); // 2024-01-02
    store.create(urgent).unwrap();
    store.create(later).unwrap();
    store.create(done).unwrap();

    let md = store.issues_md_content();
    assert!(md.starts_with("# Issues\n\n"));
    let urgent_pos = md.find("md-1").unwrap();
    let later_pos = md.find("md-2").unwrap();
    assert!(urgent_pos < later_pos);
    assert!(md.contains("## Open"));
    assert!(md.contains("## Closed"));
    assert!(md.contains("(closed 2024-01-02)"));

    let empty = CrdtStore::new();
    assert_eq!(empty.issues_md_content(), "# Issues\n\nNo issues yet.\n");
}

#[test]
fn test_config_defaults() {
    let config: trx_core::config::Config = Default::default();
    assert_eq!(config.prefix, "trx");
    assert_eq!(config.default_priority, 2);
    assert_eq!(config.default_type, "task");
    assert_eq!(config.storage_version, StorageVersion::V1);
    assert!(trx_core::config::Config::default_with_comments().contains("prefix = \"trx\""));
}
