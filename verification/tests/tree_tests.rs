use issue_viewer::model::{IssueRow, IssueState};
use issue_viewer::tree::{build_tree, sample};

#[test]
fn nests_child_under_parent() {
    let rows = vec![sample(1, None, "parent"), sample(2, Some(1), "child")];
    let tree = build_tree(&rows);
    assert_eq!(tree.len(), 1);
    assert_eq!(tree[0].issue.number, 1);
    assert_eq!(tree[0].children.len(), 1);
    assert_eq!(tree[0].children[0].issue.number, 2);
}

#[test]
fn two_roots_stay_roots() {
    let rows = vec![sample(1, None, "a"), sample(2, None, "b")];
    let tree = build_tree(&rows);
    assert_eq!(tree.len(), 2);
}

#[test]
fn missing_parent_becomes_root() {
    let rows = vec![sample(2, Some(99), "orphan")];
    let tree = build_tree(&rows);
    assert_eq!(tree.len(), 1);
    assert_eq!(tree[0].issue.number, 2);
    assert!(tree[0].children.is_empty());
}

#[test]
fn orphan_root_loses_its_missing_parent() {
    let rows = vec![sample(2, Some(99), "orphan"), sample(3, Some(2), "child")];
    let tree = build_tree(&rows);
    assert_eq!(tree.len(), 1);
    assert_eq!(tree[0].issue.parent_number, None);
    assert_eq!(tree[0].issue.title, "orphan");
    assert_eq!(tree[0].children[0].issue.parent_number, Some(2));
}

#[test]
fn nests_grandchild() {
    let rows = vec![
        sample(1, None, "p"),
        sample(2, Some(1), "c"),
        sample(3, Some(2), "gc"),
    ];
    let tree = build_tree(&rows);
    assert_eq!(tree[0].children[0].children[0].issue.number, 3);
}

#[test]
fn children_keep_input_order_even_before_their_parent() {
    let rows = vec![
        sample(3, Some(1), "second child"),
        sample(2, Some(1), "first child"),
        sample(1, None, "parent"),
        sample(4, None, "other root"),
    ];
    let tree = build_tree(&rows);
    assert_eq!(tree.len(), 2);
    assert_eq!(tree[0].issue.number, 1);
    assert_eq!(tree[1].issue.number, 4);
    let kids: Vec<u64> = tree[0].children.iter().map(|n| n.issue.number).collect();
    assert_eq!(kids, vec![3, 2]);
}

#[test]
fn cycle_without_root_is_not_shown() {
    let rows = vec![sample(1, Some(2), "a"), sample(2, Some(1), "b")];
    let tree = build_tree(&rows);
    assert!(tree.is_empty());
}

#[test]
fn empty_rows_give_empty_tree() {
    let tree = build_tree(&[]);
    assert!(tree.is_empty());
}

#[test]
fn sample_row_fields() {
    let r: IssueRow = sample(5, Some(4), "t");
    assert_eq!(r.state, IssueState::Open);
    assert_eq!(r.updated_at, "2026-01-01T00:00:00Z");
    assert_eq!(r.created_at, "2026-01-01T00:00:00Z");
    assert_eq!(r.body, "");
    assert_eq!(r.title, "t");
}
