//! Trees of nodes that name their parents: the folders of the Markdown
//! library and the groups of accounts.
use vstd::prelude::*;

verus! {

/// A node of a tree: its id and the id of its parent, if it has one.
#[derive(Debug, Clone, Copy, PartialEq, Eq, Structural)]
pub struct TreeNode {
    pub id: i64,
    pub parent_id: Option<i64>,
}

/// The index of the last node with the id: the one a lookup by id keeps.
pub open spec fn node_index(ns: Seq<TreeNode>, id: i64) -> Option<int>
    decreases ns.len(),
{
    if ns.len() == 0 {
        None
    } else if ns.last().id == id {
        Some(ns.len() - 1)
    } else {
        node_index(ns.drop_last(), id)
    }
}

pub proof fn lemma_node_index(ns: Seq<TreeNode>, id: i64)
    ensures
        node_index(ns, id) matches Some(i) ==> 0 <= i < ns.len() && ns[i].id == id
            && forall|j: int| i < j < ns.len() ==> ns[j].id != id,
        node_index(ns, id) is None ==> forall|j: int| 0 <= j < ns.len() ==> ns[j].id != id,
    decreases ns.len(),
{
    if ns.len() > 0 && ns.last().id != id {
        lemma_node_index(ns.drop_last(), id);
        assert forall|j: int| 0 <= j < ns.len() - 1 implies ns[j] == ns.drop_last()[j] by {}
    }
}

pub fn node_index_exec(nodes: &[TreeNode], id: i64) -> (r: Option<usize>)
    ensures
        match node_index(nodes@, id) {
            Some(i) => r == Some(i as usize),
            None => r is None,
        },
{
    let mut j: usize = nodes.len();
    assert(nodes@.take(nodes.len() as int) =~= nodes@);
    while j > 0
        invariant
            0 <= j <= nodes.len(),
            node_index(nodes@, id) == node_index(nodes@.take(j as int), id),
        decreases j,
    {
        let ghost t = nodes@.take(j as int);
        assert(t.drop_last() =~= nodes@.take(j - 1));
        if nodes[j - 1].id == id {
            return Some(j - 1);
        }
        j = j - 1;
    }
    None
}

/// `id` lies under the node `root` within `n` levels: it is the root, or
/// the node kept under `id` has a parent lying under the root within
/// `n - 1` levels.
pub open spec fn under_root(ns: Seq<TreeNode>, root: i64, id: i64, n: nat) -> bool
    decreases n,
{
    if id == root {
        true
    } else if n == 0 {
        false
    } else {
        match node_index(ns, id) {
            Some(i) => match ns[i].parent_id {
                Some(p) => under_root(ns, root, p, (n - 1) as nat),
                None => false,
            },
            None => false,
        }
    }
}

/// `id` is the node `root` or lies somewhere below it.
pub open spec fn in_subtree(ns: Seq<TreeNode>, root: i64, id: i64) -> bool {
    exists|n: nat| under_root(ns, root, id, n)
}

/// Every kept node whose parent is listed in `ids` is listed too.
pub open spec fn closed_under_children(ns: Seq<TreeNode>, ids: Seq<i64>) -> bool {
    forall|j: int|
        #![trigger ns[j]]
        0 <= j < ns.len() && node_index(ns, ns[j].id) == Some(j) && (
        ns[j].parent_id matches Some(p) && ids.contains(p)) ==> ids.contains(ns[j].id)
}

pub proof fn lemma_closed_contains_subtree(ns: Seq<TreeNode>, root: i64, ids: Seq<i64>, id: i64, n: nat)
    requires
        ids.contains(root),
        closed_under_children(ns, ids),
        under_root(ns, root, id, n),
    ensures
        ids.contains(id),
    decreases n,
{
    if id != root {
        let i = node_index(ns, id)->0;
        lemma_node_index(ns, id);
        let p = ns[i].parent_id->0;
        lemma_closed_contains_subtree(ns, root, ids, p, (n - 1) as nat);
        assert(ns[i].id == id);
    }
}

/// Distinct ids that are the root or belong to listed nodes are at most
/// one more than the nodes.
pub proof fn lemma_ids_with_root_bound(ns: Seq<TreeNode>, root: i64, ids: Seq<i64>)
    requires
        ids.no_duplicates(),
        forall|x: i64| #[trigger] ids.contains(x) ==> x == root || node_index(ns, x) is Some,
    ensures
        ids.len() <= ns.len() + 1,
{
    let all = Seq::new(ns.len(), |i: int| ns[i].id).push(root);
    assert forall|x: i64| ids.to_set().contains(x) implies all.to_set().contains(x) by {
        assert(ids.contains(x));
        if x == root {
            assert(all[ns.len() as int] == root);
        } else {
            lemma_node_index(ns, x);
            let i = node_index(ns, x)->0;
            assert(all[i] == x);
        }
    }
    ids.unique_seq_to_set();
    all.lemma_cardinality_of_set();
    vstd::set_lib::lemma_len_subset(ids.to_set(), all.to_set());
}

pub fn contains_id(ids: &Vec<i64>, id: i64) -> (r: bool)
    ensures
        r == ids@.contains(id),
{
    let mut i: usize = 0;
    while i < ids.len()
        invariant
            0 <= i <= ids.len(),
            forall|k: int| 0 <= k < i ==> ids@[k] != id,
        decreases ids.len() - i,
    {
        if ids[i] == id {
            assert(ids@[i as int] == id);
            return true;
        }
        i = i + 1;
    }
    false
}

/// The ids of the node `root` and of every node below it, each once.
pub fn subtree_ids(nodes: &[TreeNode], root: i64) -> (r: Vec<i64>)
    ensures
        r@.no_duplicates(),
        forall|x: i64| r@.contains(x) <==> in_subtree(nodes@, root, x),
{
    let ghost ns = nodes@;
    let mut ids: Vec<i64> = Vec::new();
    ids.push(root);
    proof {
        assert(ids@[0] == root);
        assert(under_root(ns, root, root, 0));
    }
    let mut changed = true;
    while changed
        invariant
            ns == nodes@,
            ids@.no_duplicates(),
            ids@.contains(root),
            forall|x: i64| #[trigger] ids@.contains(x) ==> in_subtree(ns, root, x),
            forall|x: i64| #[trigger] ids@.contains(x) ==> x == root || node_index(ns, x) is Some,
            !changed ==> closed_under_children(ns, ids@),
        decreases ns.len() + 2 - ids@.len() + if changed { 1int } else { 0int },
    {
        proof {
            lemma_ids_with_root_bound(ns, root, ids@);
        }
        let ghost start = ids@;
        changed = false;
        let mut i: usize = 0;
        while i < nodes.len()
            invariant
                ns == nodes@,
                0 <= i <= nodes.len(),
                ids@.no_duplicates(),
                ids@.contains(root),
                forall|x: i64| #[trigger] ids@.contains(x) ==> in_subtree(ns, root, x),
                forall|x: i64| #[trigger] ids@.contains(x) ==> x == root || node_index(ns, x) is Some,
                ids@.len() >= start.len(),
                !changed ==> ids@ == start,
                changed ==> ids@.len() > start.len(),
                !changed ==> forall|j: int|
                    #![trigger ns[j]]
                    0 <= j < i && node_index(ns, ns[j].id) == Some(j) && (
                    ns[j].parent_id matches Some(p) && ids@.contains(p)) ==> ids@.contains(
                        ns[j].id,
                    ),
            decreases nodes.len() - i,
        {
            let c = &nodes[i];
            proof {
                lemma_node_index(ns, c.id);
            }
            let found = node_index_exec(nodes, c.id);
            let kept = match found {
                Some(k) => k == i,
                None => false,
            };
            assert(kept ==> node_index(ns, c.id) == Some(i as int));
            if kept {
                match c.parent_id {
                    Some(p) => {
                        if contains_id(&ids, p) && !contains_id(&ids, c.id) {
                            let ghost before = ids@;
                            proof {
                                assert(node_index(ns, c.id) == Some(i as int));
                                assert(c.id != root);
                            }
                            ids.push(c.id);
                            proof {
                                assert forall|x: i64| #[trigger] ids@.contains(x) implies (before.contains(x) || x == c.id) by {
                                    let t = choose|t: int| 0 <= t < ids@.len() && ids@[t] == x;
                                    if t < before.len() {
                                        assert(before[t] == x);
                                    }
                                }
                                assert forall|a: int, b: int| 0 <= a < b < ids@.len() implies ids@[a] != ids@[b] by {
                                    if b == ids@.len() - 1 {
                                        assert(before.contains(before[a]));
                                    }
                                }
                                assert(ids@[0] == before[0]);
                                assert(ids@.contains(root)) by {
                                    let t = choose|t: int| 0 <= t < before.len() && before[t] == root;
                                    assert(ids@[t] == root);
                                }
                                assert forall|x: i64| #[trigger] ids@.contains(x) implies in_subtree(ns, root, x) by {
                                    if x != c.id {
                                        assert(before.contains(x));
                                    } else {
                                        assert(before.contains(p));
                                        assert(in_subtree(ns, root, p));
                                        let n = choose|n: nat| under_root(ns, root, p, n);
                                        assert(ns[i as int].parent_id == Some(p));
                                        assert(((n + 1) as nat - 1) as nat == n);
                                        assert(under_root(ns, root, x, (n + 1) as nat));
                                    }
                                }
                                assert forall|x: i64| #[trigger] ids@.contains(x) implies (x == root || node_index(ns, x) is Some) by {
                                    if x != c.id {
                                        assert(before.contains(x));
                                    }
                                }
                            }
                            changed = true;
                        }
                    },
                    None => {},
                }
            }
            i = i + 1;
        }
        proof {
            if !changed {
                assert(closed_under_children(ns, ids@));
            }
            lemma_ids_with_root_bound(ns, root, ids@);
        }
    }
    proof {
        assert forall|x: i64| in_subtree(ns, root, x) implies ids@.contains(x) by {
            let n = choose|n: nat| under_root(ns, root, x, n);
            lemma_closed_contains_subtree(ns, root, ids@, x, n);
        }
    }
    ids
}

} // verus!
