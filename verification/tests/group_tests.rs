use outlook_email::error::AppError;
use outlook_email::groups::{group_name, new_group_level, plan_group_delete, plan_group_move};
use outlook_email::models::Group;

fn group(id: i64, parent_id: Option<i64>, level: i64) -> Group {
    Group {
        id,
        name: format!("g{id}"),
        description: String::new(),
        parent_id,
        level,
        sort_order: 0,
        account_count: 0,
    }
}

fn invalid(err: AppError) -> String {
    match err {
        AppError::InvalidInput(m) => m,
        other => panic!("unexpected {:?}", other),
    }
}

#[test]
fn new_groups_sit_one_level_below_their_parent() {
    let groups = vec![group(1, None, 1), group(2, Some(1), 2), group(3, Some(2), 3)];
    assert_eq!(new_group_level(&groups, None).unwrap(), 1);
    assert_eq!(new_group_level(&groups, Some(1)).unwrap(), 2);
    assert_eq!(new_group_level(&groups, Some(2)).unwrap(), 3);
    assert_eq!(invalid(new_group_level(&groups, Some(3)).unwrap_err()), "groups support at most 3 levels");
    assert_eq!(invalid(new_group_level(&groups, Some(9)).unwrap_err()), "parent group not found");
    assert_eq!(group_name("  Child ").unwrap(), "Child");
    assert_eq!(invalid(group_name(" ").unwrap_err()), "group name is required");
}

#[test]
fn moving_a_group_carries_its_descendants() {
    // Default group 1, child 2 under it, grandchild 3 under the child.
    let groups = vec![group(1, None, 1), group(2, Some(1), 2), group(3, Some(2), 3)];
    let moved = plan_group_move(&groups, 2, None).unwrap();
    assert_eq!(moved.level, 1);
    assert_eq!(moved.delta, -1);
    assert_eq!(moved.descendants, vec![3]);
    assert_eq!(
        invalid(plan_group_move(&groups, 2, Some(3)).unwrap_err()),
        "group cannot move under its descendant"
    );
    assert_eq!(invalid(plan_group_move(&groups, 2, Some(2)).unwrap_err()), "group cannot be its own parent");
    assert_eq!(invalid(plan_group_move(&groups, 8, None).unwrap_err()), "group not found");
    assert_eq!(invalid(plan_group_move(&groups, 2, Some(8)).unwrap_err()), "parent group not found");
}

#[test]
fn moves_that_would_pass_three_levels_are_refused() {
    let groups = vec![
        group(1, None, 1),
        group(2, Some(1), 2),
        group(4, None, 1),
        group(5, Some(4), 2),
    ];
    assert_eq!(
        invalid(plan_group_move(&groups, 4, Some(2)).unwrap_err()),
        "groups support at most 3 levels"
    );
    let ok = plan_group_move(&groups, 5, Some(2)).unwrap();
    assert_eq!((ok.level, ok.delta), (3, 1));
    assert!(ok.descendants.is_empty());
}

#[test]
fn deleting_a_group_promotes_its_children() {
    let groups = vec![group(1, None, 1), group(2, None, 1), group(3, Some(2), 2), group(4, Some(3), 3)];
    let deletion = plan_group_delete(&groups, 2, false).unwrap();
    assert_eq!(deletion.parent_id, None);
    let mut below = deletion.descendants.clone();
    below.sort();
    assert_eq!(below, vec![3, 4]);
    assert_eq!(
        invalid(plan_group_delete(&groups, 1, true).unwrap_err()),
        "system group cannot be deleted"
    );
    assert_eq!(invalid(plan_group_delete(&groups, 7, false).unwrap_err()), "group not found");
}
