//! Identifier, issue, store and graph behaviour.

use trx_core::graph::IssueGraph;
use trx_core::id::generate_child_id;
use trx_core::id::generate_id;
use trx_core::id::get_parent_id;
use trx_core::id::is_child_id;
use trx_core::id::parse_id;
use trx_core::issue::DependencyType;
use trx_core::issue::Issue;
use trx_core::issue::IssueType;
use trx_core::issue::Status;
use trx_core::store::Store;

#[test]
fn test_generate_id() {
    let id = generate_id("trx");
    assert!(id.starts_with("trx-"));
    assert_eq!(id.len(), 8); // trx- + 4 chars
}

#[test]
fn test_generate_id_suffix_alphabet() {
    for _ in 0..16 {
        let id = generate_id("p");
        let suffix = &id[2..];
        assert_eq!(suffix.len(), 4);
        for c in suffix.chars() {
            assert!(c.is_ascii_digit() || (c.is_ascii_lowercase() && !"ilou".contains(c)));
        }
    }
}

#[test]
fn test_generate_child_id() {
    let child = generate_child_id("trx-abc1", 1);
    assert_eq!(child, "trx-abc1.1");

    let grandchild = generate_child_id("trx-abc1.1", 2);
    assert_eq!(grandchild, "trx-abc1.1.2");
}

#[test]
fn test_generate_child_id_multidigit() {
    assert_eq!(generate_child_id("trx-abc1", 10), "trx-abc1.10");
    assert_eq!(generate_child_id("trx-abc1", 305), "trx-abc1.305");
    assert_eq!(generate_child_id("trx-abc1", 0), "trx-abc1.0");
}

#[test]
fn test_get_parent_id() {
    assert_eq!(get_parent_id("trx-abc1.1"), Some("trx-abc1"));
    assert_eq!(get_parent_id("trx-abc1.1.2"), Some("trx-abc1.1"));
    assert_eq!(get_parent_id("trx-abc1"), None);
}

#[test]
fn test_parse_and_child_checks() {
    assert_eq!(parse_id("trx-abc1"), Some(("trx", "abc1")));
    assert_eq!(parse_id("trx-abc1.1"), Some(("trx", "abc1.1")));
    assert_eq!(parse_id("plain"), None);
    assert!(is_child_id("trx-abc1.1"));
    assert!(!is_child_id("trx-abc1"));
}

#[test]
fn test_status_parsing() {
    assert!(matches!(Status::from_str("open"), Ok(Status::Open)));
    assert!(matches!(Status::from_str("IN-PROGRESS"), Ok(Status::InProgress)));
    assert!(matches!(Status::from_str("inprogress"), Ok(Status::InProgress)));
    assert!(matches!(Status::from_str("Tombstone"), Ok(Status::Tombstone)));
    match Status::from_str("bogus") {
        Err(trx_core::error::Error::InvalidStatus(s)) => assert_eq!(s, "bogus"),
        _ => panic!("expected an invalid-status error"),
    }
    match IssueType::from_str("widget") {
        Err(trx_core::error::Error::InvalidType(s)) => assert_eq!(s, "widget"),
        _ => panic!("expected an invalid-type error"),
    }
    assert!(matches!(IssueType::from_str("Epic"), Ok(IssueType::Epic)));
}

#[test]
fn test_store_create_update_delete() {
    let mut store = Store::new();
    let issue = Issue::new("trx-0001".to_string(), "First".to_string());
    store.create(issue).unwrap();

    let dup = Issue::new("trx-0001".to_string(), "Duplicate".to_string());
    match store.create(dup) {
        Err(trx_core::error::Error::AlreadyExists(id)) => assert_eq!(id, "trx-0001"),
        _ => panic!("expected an already-exists error"),
    }

    let ghost_issue = Issue::new("trx-9999".to_string(), "Ghost".to_string());
    match store.update(ghost_issue) {
        Err(trx_core::error::Error::NotFound(id)) => assert_eq!(id, "trx-9999"),
        _ => panic!("expected a not-found error"),
    }

    let mut changed = store.get("trx-0001").unwrap().clone();
    changed.title = "Renamed".to_string();
    store.update(changed).unwrap();
    assert_eq!(store.get("trx-0001").unwrap().title, "Renamed");

    match store.delete("missing", None, None) {
        Err(trx_core::error::Error::NotFound(id)) => assert_eq!(id, "missing"),
        _ => panic!("expected a not-found error"),
    }
    store.delete("trx-0001", Some("alice".to_string()), Some("obsolete".to_string())).unwrap();
    let deleted = store.get("trx-0001").unwrap();
    assert_eq!(deleted.status, Status::Tombstone);
    assert_eq!(deleted.deleted_by.as_deref(), Some("alice"));
    assert_eq!(deleted.delete_reason.as_deref(), Some("obsolete"));
    assert_eq!(deleted.original_type.as_deref(), Some("task"));
}

#[test]
fn test_delete_twice_keeps_second_provenance() {
    let mut store = Store::new();
    store.create(Issue::new("trx-0002".to_string(), "Doomed".to_string())).unwrap();
    store.delete("trx-0002", Some("alice".to_string()), Some("first pass".to_string())).unwrap();
    // The second delete still succeeds and overwrites the provenance.
    store.delete("trx-0002", Some("bob".to_string()), Some("second pass".to_string())).unwrap();
    let i = store.get("trx-0002").unwrap();
    assert_eq!(i.status, Status::Tombstone);
    assert_eq!(i.deleted_by.as_deref(), Some("bob"));
    assert_eq!(i.delete_reason.as_deref(), Some("second pass"));
}

#[test]
fn test_list_filters_tombstones() {
    let mut store = Store::new();
    store.create(Issue::new("a-1".to_string(), "A".to_string())).unwrap();
    store.create(Issue::new("a-2".to_string(), "B".to_string())).unwrap();
    store.delete("a-1", None, None).unwrap();
    assert_eq!(store.list(false).len(), 1);
    assert_eq!(store.list(true).len(), 2);
    assert_eq!(store.list_open().len(), 1);
    assert_eq!(store.list_open()[0].id, "a-2");
}

#[test]
fn test_load_from_last_write_wins() {
    let mut one = Issue::new("x-1".to_string(), "Old title".to_string());
    one.priority = 4;
    let mut again = Issue::new("x-1".to_string(), "New title".to_string());
    again.priority = 0;
    let other = Issue::new("x-2".to_string(), "Other".to_string());
    let store = Store::load_from(&vec![one, other, again]);
    assert_eq!(store.len(), 2);
    let kept = store.get("x-1").unwrap();
    assert_eq!(kept.title, "New title");
    assert_eq!(kept.priority, 0);
}

#[test]
fn test_next_child_number() {
    let mut store = Store::new();
    store.create(Issue::new("trx-abc1".to_string(), "Parent".to_string())).unwrap();
    // An empty set of children starts at 1.
    assert_eq!(store.next_child_num("trx-abc1"), 1);
    store.create(Issue::new("trx-abc1.1".to_string(), "Child one".to_string())).unwrap();
    store.create(Issue::new("trx-abc1.2".to_string(), "Child two".to_string())).unwrap();
    assert_eq!(store.next_child_num("trx-abc1"), 3);
    // A grandchild is not a direct child and changes nothing.
    store.create(Issue::new("trx-abc1.1.1".to_string(), "Grandchild".to_string())).unwrap();
    assert_eq!(store.next_child_num("trx-abc1"), 3);
}

#[test]
fn test_ready_issues() {
    let issue1 = Issue::new("trx-001".into(), "First".into());
    let mut issue2 = Issue::new("trx-002".into(), "Second".into());

    // issue2 blocks issue1
    issue2.add_dependency("trx-001".into(), DependencyType::Blocks);

    let issues: Vec<Issue> = vec![issue1, issue2];
    let graph = IssueGraph::from_issues(&issues);

    let ready = graph.ready_issues(&issues);
    assert_eq!(ready.len(), 1);
    assert_eq!(ready[0].id, "trx-001");
}

#[test]
fn test_ready_ignores_non_blocking_edges() {
    let issue1 = Issue::new("r-1".into(), "Target".into());
    let mut issue2 = Issue::new("r-2".into(), "Related".into());
    issue2.add_dependency("r-1".into(), DependencyType::Related);
    let mut issue3 = Issue::new("r-3".into(), "Child".into());
    issue3.add_dependency("r-1".into(), DependencyType::ParentChild);

    let issues = vec![issue1, issue2, issue3];
    let graph = IssueGraph::from_issues(&issues);
    assert_eq!(graph.ready_issues(&issues).len(), 3);
}

#[test]
fn test_ready_unblocks_when_target_closes() {
    let mut issue1 = Issue::new("u-1".into(), "Target".into());
    issue1.close(Some("done".to_string()));
    let mut issue2 = Issue::new("u-2".into(), "Waiter".into());
    issue2.add_dependency("u-1".into(), DependencyType::Blocks);

    let issues = vec![issue1, issue2];
    let graph = IssueGraph::from_issues(&issues);
    let ready = graph.ready_issues(&issues);
    assert_eq!(ready.len(), 1);
    assert_eq!(ready[0].id, "u-2");
}

#[test]
fn test_topological_order_respects_edges() {
    let mut a = Issue::new("t-a".into(), "A".into());
    let mut b = Issue::new("t-b".into(), "B".into());
    let c = Issue::new("t-c".into(), "C".into());
    a.add_dependency("t-b".into(), DependencyType::Blocks);
    b.add_dependency("t-c".into(), DependencyType::Blocks);

    let issues = vec![a, b, c];
    let graph = IssueGraph::from_issues(&issues);
    let order = graph.topological_order().unwrap();
    assert_eq!(order, vec!["t-a".to_string(), "t-b".to_string(), "t-c".to_string()]);
}

#[test]
fn test_cycles_detected_and_listed() {
    let mut a = Issue::new("c-a".into(), "A".into());
    let mut b = Issue::new("c-b".into(), "B".into());
    a.add_dependency("c-b".into(), DependencyType::Blocks);
    b.add_dependency("c-a".into(), DependencyType::Blocks);
    let issues = vec![a, b];
    let graph = IssueGraph::from_issues(&issues);
    assert!(graph.has_cycles());
    assert!(graph.topological_order().is_none());
    let cycles = graph.find_cycles();
    assert_eq!(cycles.len(), 1);
    let mut ids = cycles[0].clone();
    ids.sort();
    assert_eq!(ids, vec!["c-a".to_string(), "c-b".to_string()]);
}

#[test]
fn test_self_loop_is_a_cycle() {
    let mut a = Issue::new("s-a".into(), "A".into());
    a.add_dependency("s-a".into(), DependencyType::Blocks);
    let issues = vec![a];
    let graph = IssueGraph::from_issues(&issues);
    assert!(graph.has_cycles());
    let cycles = graph.find_cycles();
    assert_eq!(cycles.len(), 1);
    assert_eq!(cycles[0], vec!["s-a".to_string()]);
}

#[test]
fn test_acyclic_graph_has_no_cycles() {
    let mut a = Issue::new("n-a".into(), "A".into());
    let b = Issue::new("n-b".into(), "B".into());
    a.add_dependency("n-b".into(), DependencyType::Blocks);
    let issues = vec![a, b];
    let graph = IssueGraph::from_issues(&issues);
    assert!(!graph.has_cycles());
    assert!(graph.find_cycles().is_empty());
    assert!(graph.topological_order().is_some());
}

#[test]
fn test_blocked_by_and_blocking() {
    let mut a = Issue::new("g-a".into(), "A".into());
    let b = Issue::new("g-b".into(), "B".into());
    a.add_dependency("g-b".into(), DependencyType::Blocks);
    let issues = vec![a, b];
    let graph = IssueGraph::from_issues(&issues);
    assert_eq!(graph.blocked_by("g-b"), vec!["g-a".to_string()]);
    assert_eq!(graph.blocking("g-a"), vec!["g-b".to_string()]);
    assert!(graph.blocked_by("g-a").is_empty());
    assert!(graph.blocking("absent").is_empty());
}

#[test]
fn test_issue_helpers() {
    let mut issue = Issue::new("h-1.2".to_string(), "Child".to_string());
    assert!(issue.is_child());
    assert_eq!(issue.parent_id(), Some("h-1"));
    assert!(!issue.is_blocking());
    issue.add_dependency("h-2".to_string(), DependencyType::Blocks);
    issue.add_dependency("h-3".to_string(), DependencyType::Related);
    assert!(issue.is_blocking());
    assert_eq!(issue.blocking_ids(), vec!["h-2".to_string()]);
    issue.remove_dependency("h-2");
    assert!(!issue.is_blocking());
    assert_eq!(issue.dependencies.len(), 1);
}

#[test]
fn test_close_sets_fields() {
    let mut issue = Issue::new("k-1".to_string(), "Work".to_string());
    issue.close(Some("fixed".to_string()));
    assert_eq!(issue.status, Status::Closed);
    assert!(issue.closed_at.is_some());
    assert_eq!(issue.close_reason.as_deref(), Some("fixed"));
    assert!(issue.status.is_closed());
    assert!(!issue.status.is_open());
}
