//! The shape of the node tree: following parents never leads a node back to
//! itself, and the mutations of the tree keep it so.
use vstd::prelude::*;
use vstd::set_lib::{lemma_int_range, lemma_len_subset, lemma_map_size, set_int_range};
use crate::dom::{
    ancestor_at, attach_spec, detach_spec, drop_children_spec, drop_ids, forest_ids, insert_spec,
    insert_adjacent_text_spec, is_inclusive_ancestor_spec, lemma_ancestor_none_stays, live, node,
    parent_of, pre_insert_spec, pre_insertion_error, reference_child, replace_all_spec,
    set_text_content_spec,
    tree_wf, DataModel, NodeModel,
};

verus! {

/// No node of the tree is its own ancestor: following parents from a node
/// never leads back to it (a cycle among the nodes held would come back
/// within as many steps as the arena has slots).
pub open spec fn acyclic(t: Seq<Option<NodeModel>>) -> bool {
    forall|i: int, k: nat|
        #![trigger ancestor_at(t, i, k)]
        live(t, i) && 1 <= k <= t.len() ==> ancestor_at(t, i, k) != Some(i as usize)
}

/// Following parents `a` steps and then `b` more is following them
/// `a + b` steps.
proof fn lemma_ancestor_compose(t: Seq<Option<NodeModel>>, d: int, a: nat, b: nat)
    ensures
        ancestor_at(t, d, a + b) == match ancestor_at(t, d, a) {
            Some(m) => ancestor_at(t, m as int, b),
            None => None,
        },
    decreases b,
{
    if b > 0 {
        lemma_ancestor_compose(t, d, a, (b - 1) as nat);
        assert((a + b - 1) as nat == a + (b - 1) as nat);
    }
}

/// Two trees that agree on the parent of every node but `n` agree on the
/// ancestors of a node as long as the chain does not pass through `n`.
proof fn lemma_chains_agree(
    t: Seq<Option<NodeModel>>,
    u: Seq<Option<NodeModel>>,
    n: int,
    d: int,
    k: nat,
)
    requires
        forall|y: int| y != n ==> #[trigger] parent_of(u, y) == parent_of(t, y),
        forall|j: nat| j < k ==> #[trigger] ancestor_at(u, d, j) != Some(n as usize),
    ensures
        ancestor_at(u, d, k) == ancestor_at(t, d, k),
    decreases k,
{
    if k > 0 {
        let k1 = (k - 1) as nat;
        assert forall|j: nat| j < k1 implies #[trigger] ancestor_at(u, d, j) != Some(n as usize) by {
            assert(j < k);
        }
        lemma_chains_agree(t, u, n, d, k1);
        assert(ancestor_at(u, d, k1) != Some(n as usize));
        match ancestor_at(u, d, k1) {
            Some(m) => {
                assert(m as int != n);
                assert(parent_of(u, m as int) == parent_of(t, m as int));
            },
            None => {},
        }
    }
}

/// The first step at which a chain reaches `n`, given one step at which it
/// does.
proof fn lemma_first_hit(u: Seq<Option<NodeModel>>, d: int, n: int, i: nat) -> (m: nat)
    requires
        ancestor_at(u, d, i) == Some(n as usize),
    ensures
        m <= i,
        ancestor_at(u, d, m) == Some(n as usize),
        forall|j: nat| j < m ==> #[trigger] ancestor_at(u, d, j) != Some(n as usize),
    decreases i,
{
    if exists|j: nat| j < i && #[trigger] ancestor_at(u, d, j) == Some(n as usize) {
        let j = choose|j: nat| j < i && #[trigger] ancestor_at(u, d, j) == Some(n as usize);
        lemma_first_hit(u, d, n, j)
    } else {
        i
    }
}

/// Where the only parent that changed is that of `n`, and the new parent
/// chain of `n` never comes back to `n` within the bound, no cycle appears.
proof fn lemma_acyclic_after_reparent(t: Seq<Option<NodeModel>>, u: Seq<Option<NodeModel>>, n: int)
    requires
        acyclic(t),
        0 <= n < t.len() <= usize::MAX,
        u.len() == t.len(),
        forall|y: int| #[trigger] live(u, y) == live(t, y),
        forall|y: int| y != n ==> #[trigger] parent_of(u, y) == parent_of(t, y),
        forall|k: nat| 1 <= k <= u.len() ==> #[trigger] ancestor_at(u, n, k) != Some(n as usize),
    ensures
        acyclic(u),
{
    assert forall|x: int, k: nat| live(u, x) && 1 <= k <= u.len() implies #[trigger] ancestor_at(u, x, k)
        != Some(x as usize) by {
        if ancestor_at(u, x, k) == Some(x as usize) {
            if exists|j: nat| j < k && #[trigger] ancestor_at(u, x, j) == Some(n as usize) {
                let j = choose|j: nat| j < k && #[trigger] ancestor_at(u, x, j) == Some(n as usize);
                assert((n as usize) as int == n);
                assert((x as usize) as int == x);
                // x reaches n in j steps and comes back to x in k - j more;
                // so n comes back to itself in k steps.
                lemma_ancestor_compose(u, x, j, (k - j) as nat);
                assert(j + (k - j) as nat == k);
                lemma_ancestor_compose(u, n, (k - j) as nat, j);
                assert((k - j) as nat + j == k);
                assert(ancestor_at(u, n, k) == Some(n as usize));
            } else {
                lemma_chains_agree(t, u, n, x, k);
                assert(live(t, x));
                assert(ancestor_at(t, x, k) != Some(x as usize));
            }
        }
    }
}

/// What inserting a node changes of the parents: only the node's, which
/// becomes the new parent.
proof fn lemma_insert_parents(t: Seq<Option<NodeModel>>, n: int, parent: int, r: Option<usize>)
    requires
        tree_wf(t),
        live(t, n),
        live(t, parent),
        n != parent,
    ensures
        insert_spec(t, n, parent, r).len() == t.len(),
        forall|y: int| #[trigger] live(insert_spec(t, n, parent, r), y) == live(t, y),
        forall|y: int| y != n ==> #[trigger] parent_of(insert_spec(t, n, parent, r), y) == parent_of(t, y),
        parent_of(insert_spec(t, n, parent, r), n) == Some(parent as usize),
{
    let t1 = detach_spec(t, n);
    let u = insert_spec(t, n, parent, r);
    assert forall|y: int| #[trigger] live(t1, y) == live(t, y) by {}
    assert forall|y: int| y != n implies #[trigger] parent_of(t1, y) == parent_of(t, y) by {}
    assert forall|y: int| #[trigger] live(u, y) == live(t, y) by {
        assert(live(t1, y) == live(t, y));
    }
    assert forall|y: int| y != n implies #[trigger] parent_of(u, y) == parent_of(t, y) by {
        assert(parent_of(t1, y) == parent_of(t, y));
    }
}

/// Pre-inserting a node where pre-insertion validity holds keeps the tree
/// free of cycles: the node's new parent is not among its descendants.
pub proof fn law_pre_insert_keeps_tree_acyclic(
    t: Seq<Option<NodeModel>>,
    n: int,
    parent: int,
    child: Option<usize>,
)
    requires
        tree_wf(t),
        acyclic(t),
        pre_insertion_error(t, n, parent, child) is None,
    ensures
        acyclic(pre_insert_spec(t, n, parent, child)),
{
    let r = reference_child(t, n, child);
    let u = pre_insert_spec(t, n, parent, child);
    assert(ancestor_at(t, parent, 0) == Some(parent as usize));
    assert(n != parent);
    lemma_insert_parents(t, n, parent, r);
    assert forall|k: nat| 1 <= k <= u.len() implies #[trigger] ancestor_at(u, n, k) != Some(n as usize) by {
        if ancestor_at(u, n, k) == Some(n as usize) {
            // n's chain goes through its new parent and back to n: the old
            // chain of the parent reaches n, within the bound.
            assert((n as usize) as int == n);
            assert((parent as usize) as int == parent);
            lemma_ancestor_compose(u, n, 1, (k - 1) as nat);
            assert(1 + (k - 1) as nat == k);
            assert(ancestor_at(u, n, 0) == Some(n as usize));
            assert(ancestor_at(u, n, 1) == Some(parent as usize));
            let m = lemma_first_hit(u, parent, n, (k - 1) as nat);
            lemma_chains_agree(t, u, n, parent, m);
            assert(ancestor_at(t, parent, m) == Some(n as usize));
            assert(is_inclusive_ancestor_spec(t, n, parent));
        }
    }
    lemma_acyclic_after_reparent(t, u, n);
}

/// Removing a node from its parent keeps the tree free of cycles.
pub proof fn law_remove_keeps_tree_acyclic(t: Seq<Option<NodeModel>>, id: int)
    requires
        tree_wf(t),
        acyclic(t),
    ensures
        acyclic(if parent_of(t, id) is Some {
            detach_spec(t, id)
        } else {
            t
        }),
{
    if parent_of(t, id) is Some {
        let u = detach_spec(t, id);
        assert forall|y: int| #[trigger] live(u, y) == live(t, y) by {}
        assert forall|y: int| y != id implies #[trigger] parent_of(u, y) == parent_of(t, y) by {}
        assert(parent_of(u, id) is None);
        assert((id as usize) as int == id);
        assert forall|k: nat| 1 <= k <= u.len() implies #[trigger] ancestor_at(u, id, k) != Some(id as usize) by {
            assert(ancestor_at(u, id, 0) == Some(id as usize));
            assert(ancestor_at(u, id, 1) is None);
            lemma_ancestor_none_stays(u, id, 1, k);
        }
        lemma_acyclic_after_reparent(t, u, id);
    }
}

/// A tree holding only its document is free of cycles.
pub proof fn law_new_tree_is_acyclic(t: Seq<Option<NodeModel>>)
    requires
        tree_wf(t),
        t.len() == 1,
    ensures
        acyclic(t),
{
    assert forall|i: int, k: nat| live(t, i) && 1 <= k <= t.len() implies #[trigger] ancestor_at(t, i, k)
        != Some(i as usize) by {
        assert(i == 0);
        assert(ancestor_at(t, 0, 0) == Some(0usize));
        assert(ancestor_at(t, 0, 1) is None);
        lemma_ancestor_none_stays(t, 0, 1, k);
    }
}

/// Every step of a chain that lands on a node lands within the arena.
proof fn lemma_chain_in_arena(t: Seq<Option<NodeModel>>, x: int, j: nat)
    requires
        tree_wf(t),
        0 <= x < t.len(),
    ensures
        ancestor_at(t, x, j) matches Some(a) ==> a < t.len(),
    decreases j,
{
    if j > 0 {
        lemma_chain_in_arena(t, x, (j - 1) as nat);
        match ancestor_at(t, x, (j - 1) as nat) {
            Some(a) => {
                if live(t, a as int) {
                    assert(t[a as int] == t[a as int]);
                }
            },
            None => {},
        }
    }
}

/// In a tree free of cycles, following parents from a node falls off the
/// tree within as many steps as the arena has slots.
proof fn lemma_chain_ends(t: Seq<Option<NodeModel>>, x: int)
    requires
        tree_wf(t),
        acyclic(t),
        0 <= x < t.len(),
    ensures
        ancestor_at(t, x, t.len() as nat) is None,
{
    let len = t.len();
    if ancestor_at(t, x, len as nat) is Some {
        assert forall|j: nat| j <= len implies #[trigger] ancestor_at(t, x, j) is Some by {
            if ancestor_at(t, x, j) is None {
                lemma_ancestor_none_stays(t, x, j, len as nat);
            }
        }
        let f = |j: int| ancestor_at(t, x, j as nat)->0 as int;
        let steps = set_int_range(0, len as int + 1);
        let values = set_int_range(0, len as int);
        assert forall|i: int, j: int|
            steps.contains(i) && steps.contains(j) && #[trigger] f(i) == #[trigger] f(j) implies i == j by {
            if i != j {
                let (lo, hi) = if i < j { (i, j) } else { (j, i) };
                let a = ancestor_at(t, x, lo as nat)->0;
                assert(ancestor_at(t, x, lo as nat) is Some);
                assert(ancestor_at(t, x, hi as nat) is Some);
                assert(ancestor_at(t, x, hi as nat) == Some(a));
                lemma_ancestor_compose(t, x, lo as nat, (hi - lo) as nat);
                assert(lo as nat + (hi - lo) as nat == hi as nat);
                assert(ancestor_at(t, a as int, (hi - lo) as nat) == Some(a));
                assert(ancestor_at(t, x, (lo + 1) as nat) is Some);
                assert(live(t, a as int));
                lemma_chain_in_arena(t, x, lo as nat);
                assert((a as int) as usize == a);
                assert(ancestor_at(t, a as int, (hi - lo) as nat) != Some((a as int) as usize));
            }
        }
        lemma_int_range(0, len as int + 1);
        lemma_int_range(0, len as int);
        lemma_map_size(steps, steps.map(f), f);
        assert forall|v: int| steps.map(f).contains(v) implies values.contains(v) by {
            let j = choose|j: int| steps.contains(j) && v == f(j);
            lemma_chain_in_arena(t, x, j as nat);
            assert(ancestor_at(t, x, j as nat) is Some);
        }
        lemma_len_subset(steps.map(f), values);
    }
}

/// A tree free of cycles stays so where, of the nodes it held, each is
/// dropped, keeps its parent or loses it, and each node added hangs from
/// a node it held, or from none.
proof fn lemma_acyclic_without_new_links(t: Seq<Option<NodeModel>>, u: Seq<Option<NodeModel>>)
    requires
        tree_wf(t),
        acyclic(t),
        t.len() <= u.len() <= usize::MAX,
        forall|y: int| 0 <= y < t.len() && #[trigger] live(u, y) ==> live(t, y),
        forall|y: int|
            0 <= y < t.len() && live(u, y) ==> #[trigger] parent_of(u, y) is None || parent_of(u, y)
                == parent_of(t, y),
        forall|y: int|
            t.len() <= y < u.len() && live(u, y) ==> (#[trigger] parent_of(u, y) matches Some(p) ==> p
                < t.len()),
    ensures
        acyclic(u),
{
    assert forall|x: int, j: nat| 0 <= x < t.len() implies (#[trigger] ancestor_at(u, x, j) is None
        || ancestor_at(u, x, j) == ancestor_at(t, x, j)) by {
        lemma_old_chain_shrinks(t, u, x, j);
    }
    assert forall|x: int, k: nat| live(u, x) && 1 <= k <= u.len() implies #[trigger] ancestor_at(u, x, k)
        != Some(x as usize) by {
        if x < t.len() {
            if ancestor_at(u, x, k) == Some(x as usize) {
                assert(ancestor_at(t, x, k) == Some(x as usize));
                if k > t.len() {
                    lemma_chain_ends(t, x);
                    lemma_ancestor_none_stays(t, x, t.len() as nat, k);
                } else {
                    assert(live(t, x));
                }
            }
        } else {
            assert((x as usize) as int == x);
            assert(ancestor_at(u, x, 0) == Some(x as usize));
            lemma_ancestor_compose(u, x, 1, (k - 1) as nat);
            assert(1 + (k - 1) as nat == k);
            match parent_of(u, x) {
                None => {
                    assert(ancestor_at(u, x, 1) is None);
                },
                Some(p) => {
                    assert(ancestor_at(u, x, 1) == Some(p));
                    lemma_old_chain_shrinks(t, u, p as int, (k - 1) as nat);
                    lemma_chain_in_arena(t, p as int, (k - 1) as nat);
                },
            }
        }
    }
}

/// Following parents in the new tree from a node the old one held lands
/// where it did in the old tree, or falls off sooner.
proof fn lemma_old_chain_shrinks(t: Seq<Option<NodeModel>>, u: Seq<Option<NodeModel>>, x: int, j: nat)
    requires
        tree_wf(t),
        0 <= x < t.len(),
        forall|y: int| 0 <= y < t.len() && #[trigger] live(u, y) ==> live(t, y),
        forall|y: int|
            0 <= y < t.len() && live(u, y) ==> #[trigger] parent_of(u, y) is None || parent_of(u, y)
                == parent_of(t, y),
    ensures
        ancestor_at(u, x, j) is None || ancestor_at(u, x, j) == ancestor_at(t, x, j),
    decreases j,
{
    if j > 0 {
        let j1 = (j - 1) as nat;
        lemma_old_chain_shrinks(t, u, x, j1);
        lemma_chain_in_arena(t, x, j1);
        match ancestor_at(u, x, j1) {
            Some(a) => {
                if live(u, a as int) {
                    assert(parent_of(u, a as int) is None || parent_of(u, a as int) == parent_of(t, a as int));
                }
            },
            None => {},
        }
    }
}

/// Adding a node that hangs from no node keeps the tree free of cycles (the
/// node factories add such nodes).
pub proof fn law_new_node_keeps_tree_acyclic(t: Seq<Option<NodeModel>>, n: NodeModel)
    requires
        tree_wf(t),
        acyclic(t),
        t.len() < usize::MAX,
        n.parent is None,
    ensures
        acyclic(t.push(Some(n))),
{
    let u = t.push(Some(n));
    assert forall|y: int| 0 <= y < t.len() && #[trigger] live(u, y) implies live(t, y) && parent_of(u, y)
        == parent_of(t, y) by {
        assert(u[y] == t[y]);
    }
    assert(parent_of(u, t.len() as int) is None);
    lemma_acyclic_without_new_links(t, u);
}

/// String replace all within a node keeps the tree free of cycles: the
/// children dropped take their subtrees with them, and the text node added
/// hangs from the node.
pub proof fn law_replace_all_keeps_tree_acyclic(t: Seq<Option<NodeModel>>, parent: int, s: Seq<char>)
    requires
        tree_wf(t),
        acyclic(t),
        t.len() < usize::MAX,
    ensures
        acyclic(replace_all_spec(t, parent, s)),
{
    let u = replace_all_spec(t, parent, s);
    if live(t, parent) {
        let fresh = NodeModel { data: DataModel::Text(s), parent: None, children: Seq::empty() };
        let t1 = if s.len() > 0 { t.push(Some(fresh)) } else { t };
        let d0 = t1.update(parent, Some(NodeModel { children: Seq::empty(), ..node(t1, parent) }));
        let ids = forest_ids(t1, node(t1, parent).children, t1.len());
        let d = drop_ids(d0, ids, parent);
        assert(d == drop_children_spec(t1, parent));
        assert forall|y: int| 0 <= y < t.len() && #[trigger] live(d, y) implies live(t, y)
            && parent_of(d, y) == parent_of(t, y) by {
            assert(t1[y] == t[y]);
        }
        if s.len() > 0 {
            let n = t.len() as int;
            let a1 = d.update(
                parent,
                Some(NodeModel { children: node(d, parent).children.insert(0, n as usize), ..node(d, parent) }),
            );
            assert(u == a1.update(n, Some(NodeModel { parent: Some(parent as usize), ..node(a1, n) })));
            assert forall|y: int| 0 <= y < t.len() && #[trigger] live(u, y) implies live(t, y)
                && parent_of(u, y) == parent_of(t, y) by {
                if y != parent {
                    assert(u[y] == d[y]);
                }
            }
            assert(parent_of(u, n) == Some(parent as usize));
        } else {
            assert(u == d);
        }
    }
    lemma_acyclic_without_new_links(t, u);
}

/// Setting the text content of a node keeps the tree free of cycles.
pub proof fn law_set_text_content_keeps_tree_acyclic(t: Seq<Option<NodeModel>>, id: int, s: Seq<char>)
    requires
        tree_wf(t),
        acyclic(t),
        t.len() < usize::MAX,
    ensures
        acyclic(set_text_content_spec(t, id, s)),
{
    let u = set_text_content_spec(t, id, s);
    if live(t, id) {
        match node(t, id).data {
            DataModel::Element { .. } => {
                law_replace_all_keeps_tree_acyclic(t, id, s);
            },
            DataModel::Text(_) => {
                assert forall|y: int| 0 <= y < t.len() && #[trigger] live(u, y) implies live(t, y)
                    && parent_of(u, y) == parent_of(t, y) by {}
                lemma_acyclic_without_new_links(t, u);
            },
            _ => {},
        }
    }
}

/// Inserting adjacent text keeps the tree free of cycles: the text node
/// added hangs from the element or from its parent.
pub proof fn law_insert_adjacent_text_keeps_tree_acyclic(
    t: Seq<Option<NodeModel>>,
    id: int,
    position: Seq<char>,
    data: Seq<char>,
)
    requires
        tree_wf(t),
        acyclic(t),
        t.len() < usize::MAX,
    ensures
        acyclic(insert_adjacent_text_spec(t, id, position, data).0),
{
    let u = insert_adjacent_text_spec(t, id, position, data).0;
    if live(t, id) {
        let fresh = NodeModel { data: DataModel::Text(data), parent: None, children: Seq::empty() };
        let t1 = t.push(Some(fresh));
        let n = t.len() as int;
        assert forall|p: int, y: int| 0 <= y < t.len() && live(t1, p) && #[trigger] live(
            attach_spec(t1, n, p, y),
            y,
        ) implies live(t, y) && parent_of(attach_spec(t1, n, p, y), y) == parent_of(t, y) by {
            assert(t1[y] == t[y]);
        }
        assert forall|y: int| 0 <= y < t.len() && #[trigger] live(u, y) implies live(t, y) && parent_of(u, y)
            == parent_of(t, y) by {
            assert(t1[y] == t[y]);
        }
        assert(parent_of(u, n) matches Some(p) ==> p < t.len()) by {
            assert(live(t, id));
            assert(t[id] == t[id]);
        }
    }
    lemma_acyclic_without_new_links(t, u);
}

/// Changing what a node holds (its text, its attributes) without touching
/// its links keeps the tree free of cycles.
pub proof fn law_data_change_keeps_tree_acyclic(t: Seq<Option<NodeModel>>, id: int, data: DataModel)
    requires
        tree_wf(t),
        acyclic(t),
        live(t, id),
    ensures
        acyclic(t.update(id, Some(NodeModel { data, ..node(t, id) }))),
{
    let u = t.update(id, Some(NodeModel { data, ..node(t, id) }));
    assert forall|y: int| 0 <= y < t.len() && #[trigger] live(u, y) implies live(t, y) && parent_of(u, y)
        == parent_of(t, y) by {}
    lemma_acyclic_without_new_links(t, u);
}

} // verus!
