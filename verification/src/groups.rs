//! Account groups: a tree of at most three levels, whose groups can be
//! created, moved under another group and deleted.
use crate::error::{invalid_input, is_invalid_input, AppResult};
use crate::models::Group;
use crate::text::{string_of, trim, trim_str};
use crate::tree::{contains_id, in_subtree, node_index, node_index_exec, subtree_ids, TreeNode};
use vstd::prelude::*;

verus! {

/// The deepest level a group can have.
pub const MAX_GROUP_LEVEL: i64 = 3;

/// The tree shape of the groups.
pub open spec fn group_tree(groups: Seq<Group>) -> Seq<TreeNode> {
    Seq::new(groups.len(), |i: int| TreeNode { id: groups[i].id, parent_id: groups[i].parent_id })
}

/// The stored level of the group with the id, if there is one.
pub open spec fn level_of(groups: Seq<Group>, id: i64) -> Option<i64> {
    match node_index(group_tree(groups), id) {
        Some(i) => Some(groups[i].level),
        None => None,
    }
}

fn group_nodes(groups: &[Group]) -> (r: Vec<TreeNode>)
    ensures
        r@ == group_tree(groups@),
{
    let mut nodes: Vec<TreeNode> = Vec::new();
    let mut i: usize = 0;
    while i < groups.len()
        invariant
            0 <= i <= groups.len(),
            nodes@ =~= group_tree(groups@).take(i as int),
        decreases groups.len() - i,
    {
        nodes.push(TreeNode { id: groups[i].id, parent_id: groups[i].parent_id });
        i = i + 1;
    }
    assert(group_tree(groups@).take(groups.len() as int) =~= group_tree(groups@));
    nodes
}

fn level_lookup(groups: &[Group], nodes: &Vec<TreeNode>, id: i64) -> (r: Option<i64>)
    requires
        nodes@ == group_tree(groups@),
    ensures
        r == level_of(groups@, id),
{
    match node_index_exec(nodes.as_slice(), id) {
        Some(i) => {
            proof {
                crate::tree::lemma_node_index(nodes@, id);
            }
            Some(groups[i].level)
        },
        None => None,
    }
}

/// A group's name: trimmed, and required.
pub fn group_name(name: &str) -> (r: AppResult<String>)
    ensures
        trim(name@).len() > 0 ==> (r matches Ok(n) && n@ == trim(name@)),
        trim(name@).len() == 0 ==> (r matches Err(e) && is_invalid_input(
            e,
            "group name is required"@,
        )),
{
    let t = trim_str(name);
    if t.len() == 0 {
        return Err(invalid_input("group name is required"));
    }
    Ok(string_of(&t))
}

/// The level of a new group: the top level without a parent, else one
/// below its parent, which must exist; refused past the third level.
pub open spec fn new_level(groups: Seq<Group>, parent_id: Option<i64>) -> Result<int, Seq<char>> {
    match parent_id {
        None => Ok(1),
        Some(p) => match level_of(groups, p) {
            None => Err("parent group not found"@),
            Some(l) => if l + 1 > MAX_GROUP_LEVEL {
                Err("groups support at most 3 levels"@)
            } else {
                Ok(l + 1)
            },
        },
    }
}

pub fn new_group_level(groups: &[Group], parent_id: Option<i64>) -> (r: AppResult<i64>)
    ensures
        match new_level(groups@, parent_id) {
            Ok(l) => r matches Ok(x) && x == l,
            Err(m) => r matches Err(e) && is_invalid_input(e, m),
        },
        r matches Ok(l) ==> l <= MAX_GROUP_LEVEL,
{
    let p = match parent_id {
        None => {
            return Ok(1);
        },
        Some(p) => p,
    };
    let nodes = group_nodes(groups);
    match level_lookup(groups, &nodes, p) {
        None => Err(invalid_input("parent group not found")),
        Some(l) => if l >= MAX_GROUP_LEVEL {
            Err(invalid_input("groups support at most 3 levels"))
        } else {
            Ok(l + 1)
        },
    }
}

/// A group strictly below `root`.
pub open spec fn below(groups: Seq<Group>, root: i64, id: i64) -> bool {
    id != root && in_subtree(group_tree(groups), root, id)
}

/// The deepest stored level below `root` among the first `n` groups, or
/// `floor` when none is deeper.
pub open spec fn deepest_below(groups: Seq<Group>, root: i64, n: int, floor: int) -> int
    decreases n,
{
    if n <= 0 {
        floor
    } else {
        let m = deepest_below(groups, root, n - 1, floor);
        if below(groups, root, groups[n - 1].id) && groups[n - 1].level > m {
            groups[n - 1].level as int
        } else {
            m
        }
    }
}

proof fn lemma_deepest_below(groups: Seq<Group>, root: i64, n: int, floor: int)
    requires
        0 <= n <= groups.len(),
    ensures
        deepest_below(groups, root, n, floor) >= floor,
        forall|j: int|
            0 <= j < n && below(groups, root, #[trigger] groups[j].id) ==> groups[j].level
                <= deepest_below(groups, root, n, floor),
    decreases n,
{
    if n > 0 {
        lemma_deepest_below(groups, root, n - 1, floor);
    }
}

/// How a group moves: its new level, the change of level that its
/// descendants take with it, and their ids.
#[derive(Debug, Clone)]
pub struct GroupMove {
    pub level: i64,
    pub delta: i128,
    pub descendants: Vec<i64>,
}

/// A move of group `id` under `parent_id` (or to the top): the group must
/// exist, must not become its own parent or move under one of its
/// descendants, the parent must exist, and the deepest group it carries
/// must stay within three levels, refused in that order.
pub open spec fn group_move(groups: Seq<Group>, id: i64, parent_id: Option<i64>) -> Result<
    (int, int),
    Seq<char>,
> {
    match level_of(groups, id) {
        None => Err("group not found"@),
        Some(current) => if parent_id == Some(id) {
            Err("group cannot be its own parent"@)
        } else if parent_id matches Some(p) && below(groups, id, p) {
            Err("group cannot move under its descendant"@)
        } else {
            let level = match parent_id {
                None => Some(1int),
                Some(p) => match level_of(groups, p) {
                    Some(l) => Some(l + 1),
                    None => None,
                },
            };
            match level {
                None => Err("parent group not found"@),
                Some(level) => {
                    let depth = deepest_below(groups, id, groups.len() as int, current as int)
                        - current;
                    if level + depth > MAX_GROUP_LEVEL {
                        Err("groups support at most 3 levels"@)
                    } else {
                        Ok((level, level - current))
                    }
                },
            }
        },
    }
}

/// Settles a move of a group.  Once accepted, the group and every group
/// below it, shifted by the change of level, stay within three levels.
pub fn plan_group_move(groups: &[Group], id: i64, parent_id: Option<i64>) -> (r: AppResult<GroupMove>)
    ensures
        match group_move(groups@, id, parent_id) {
            Ok((level, delta)) => r matches Ok(m) && m.level == level && m.delta == delta && (
            forall|x: i64| #[trigger] m.descendants@.contains(x) <==> below(groups@, id, x)),
            Err(msg) => r matches Err(e) && is_invalid_input(e, msg),
        },
        r matches Ok(m) ==> m.level <= MAX_GROUP_LEVEL && forall|j: int|
            0 <= j < groups@.len() && below(groups@, id, #[trigger] groups@[j].id) ==> groups@[j].level
                + m.delta <= MAX_GROUP_LEVEL,
{
    let nodes = group_nodes(groups);
    let current = match level_lookup(groups, &nodes, id) {
        Some(l) => l,
        None => {
            return Err(invalid_input("group not found"));
        },
    };
    if parent_id == Some(id) {
        return Err(invalid_input("group cannot be its own parent"));
    }
    let subtree = subtree_ids(nodes.as_slice(), id);
    if let Some(p) = parent_id {
        if contains_id(&subtree, p) {
            return Err(invalid_input("group cannot move under its descendant"));
        }
    }
    let level: i128 = match parent_id {
        None => 1,
        Some(p) => match level_lookup(groups, &nodes, p) {
            Some(l) => l as i128 + 1,
            None => {
                return Err(invalid_input("parent group not found"));
            },
        },
    };
    let mut deepest: i64 = current;
    let mut descendants: Vec<i64> = Vec::new();
    let mut i: usize = 0;
    while i < groups.len()
        invariant
            0 <= i <= groups.len(),
            nodes@ == group_tree(groups@),
            forall|x: i64| subtree@.contains(x) <==> in_subtree(nodes@, id, x),
            deepest == deepest_below(groups@, id, i as int, current as int),
            forall|x: i64|
                #[trigger] descendants@.contains(x) ==> below(groups@, id, x),
            forall|j: int|
                0 <= j < i && below(groups@, id, #[trigger] groups@[j].id) ==> descendants@.contains(
                    groups@[j].id,
                ),
        decreases groups.len() - i,
    {
        let g = &groups[i];
        assert(nodes@[i as int].id == g.id);
        if g.id != id && contains_id(&subtree, g.id) {
            if g.level > deepest {
                deepest = g.level;
            }
            if !contains_id(&descendants, g.id) {
                let ghost before = descendants@;
                descendants.push(g.id);
                proof {
                    assert forall|x: i64| #[trigger] descendants@.contains(x) implies below(groups@, id, x) by {
                        vstd::seq_lib::lemma_seq_contains_after_push(before, g.id, x);
                    }
                    assert forall|j: int|
                        0 <= j < i + 1 && below(groups@, id, #[trigger] groups@[j].id) implies descendants@.contains(
                            groups@[j].id,
                        ) by {
                        vstd::seq_lib::lemma_seq_contains_after_push(before, g.id, groups@[j].id);
                    }
                }
            }
        }
        i = i + 1;
    }
    proof {
        lemma_deepest_below(groups@, id, groups@.len() as int, current as int);
    }
    let depth: i128 = deepest as i128 - current as i128;
    if level + depth > MAX_GROUP_LEVEL as i128 {
        return Err(invalid_input("groups support at most 3 levels"));
    }
    assert forall|x: i64| #[trigger] descendants@.contains(x) <==> below(groups@, id, x) by {
        if below(groups@, id, x) {
            crate::tree::lemma_node_index(nodes@, x);
            let k = node_index(nodes@, x)->0;
            assert(groups@[k].id == x);
        }
    }
    Ok(GroupMove { level: level as i64, delta: level - current as i128, descendants })
}

/// What deleting a group does: its accounts and child groups move to its
/// parent, and the groups below it rise one level.
#[derive(Debug, Clone)]
pub struct GroupDeletion {
    pub parent_id: Option<i64>,
    pub descendants: Vec<i64>,
}

/// Settles the deletion of a group; system groups stay.
pub fn plan_group_delete(groups: &[Group], id: i64, is_system: bool) -> (r: AppResult<GroupDeletion>)
    ensures
        node_index(group_tree(groups@), id) is None ==> (r matches Err(e) && is_invalid_input(
            e,
            "group not found"@,
        )),
        node_index(group_tree(groups@), id) matches Some(k) ==> if is_system {
            r matches Err(e) && is_invalid_input(e, "system group cannot be deleted"@)
        } else {
            r matches Ok(d) && d.parent_id == groups@[k].parent_id && forall|x: i64|
                #[trigger] d.descendants@.contains(x) <==> below(groups@, id, x)
        },
{
    let nodes = group_nodes(groups);
    let k = match node_index_exec(nodes.as_slice(), id) {
        Some(k) => k,
        None => {
            return Err(invalid_input("group not found"));
        },
    };
    proof {
        crate::tree::lemma_node_index(nodes@, id);
    }
    if is_system {
        return Err(invalid_input("system group cannot be deleted"));
    }
    let subtree = subtree_ids(nodes.as_slice(), id);
    let mut descendants: Vec<i64> = Vec::new();
    let mut i: usize = 0;
    while i < subtree.len()
        invariant
            0 <= i <= subtree.len(),
            forall|x: i64| subtree@.contains(x) <==> in_subtree(nodes@, id, x),
            nodes@ == group_tree(groups@),
            forall|x: i64|
                #[trigger] descendants@.contains(x) <==> (x != id && subtree@.take(i as int).contains(x)),
        decreases subtree.len() - i,
    {
        let x = subtree[i];
        let ghost before = descendants@;
        assert(subtree@.take(i + 1) =~= subtree@.take(i as int).push(x));
        if x != id {
            descendants.push(x);
        }
        assert forall|y: i64|
            #[trigger] descendants@.contains(y) <==> (y != id && subtree@.take(i + 1).contains(y)) by {
            vstd::seq_lib::lemma_seq_contains_after_push(subtree@.take(i as int), x, y);
            if x != id {
                vstd::seq_lib::lemma_seq_contains_after_push(before, x, y);
            }
        }
        i = i + 1;
    }
    assert(subtree@.take(subtree.len() as int) =~= subtree@);
    Ok(GroupDeletion { parent_id: groups[k].parent_id, descendants })
}

} // verus!
