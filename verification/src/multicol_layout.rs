//! Which subtrees of a document are laid out in columns, and in which order.

use vstd::prelude::*;

verus! {

/// A node of the layout tree: its id, whether it asks for columns, and its
/// children in order.
pub struct LayoutNode {
    pub id: usize,
    pub multicol: bool,
    pub children: Vec<LayoutNode>,
}

/// The nodes of a subtree that ask for columns, each before those below it.
pub open spec fn multicol_ids(node: LayoutNode) -> Seq<usize>
    decreases node, node.children@.len() + 1,
{
    (if node.multicol {
        seq![node.id]
    } else {
        Seq::empty()
    }) + multicol_ids_below(node, 0)
}

/// The nodes that ask for columns in the children from the `k`-th on.
pub open spec fn multicol_ids_below(node: LayoutNode, k: int) -> Seq<usize>
    decreases node, node.children@.len() - k,
    when 0 <= k <= node.children@.len()
{
    if k == node.children@.len() {
        Seq::empty()
    } else {
        multicol_ids(node.children@[k]) + multicol_ids_below(node, k + 1)
    }
}

fn walk(node: &LayoutNode, out: &mut Vec<usize>)
    ensures
        final(out)@ == old(out)@ + multicol_ids(*node),
    decreases node,
{
    let ghost before = out@;
    if node.multicol {
        out.push(node.id);
    }
    let ghost own = out@;
    let mut k: usize = 0;
    while k < node.children.len()
        invariant
            k <= node.children@.len(),
            out@ + multicol_ids_below(*node, k as int) =~= own + multicol_ids_below(*node, 0),
        decreases node.children@.len() - k,
    {
        let ghost sofar = out@;
        let child: &LayoutNode = &node.children[k];
        assert(decreases_to!(*node => node.children@[k as int]));
        walk(child, out);
        k = k + 1;
        assert(out@ == sofar + multicol_ids(*child));
    }
    assert(out@ =~= before + multicol_ids(*node));
}

/// The nodes of a tree that ask for columns, from the top down.
pub fn collect_multicol_node_ids(root: &LayoutNode) -> (r: Vec<usize>)
    ensures
        r@ == multicol_ids(*root),
{
    let mut out: Vec<usize> = Vec::new();
    walk(root, &mut out);
    assert(out@ =~= multicol_ids(*root));
    out
}

/// The order in which the subtrees with columns are laid out.
pub open spec fn layout_order(root: LayoutNode) -> Seq<usize> {
    multicol_ids(root).reverse()
}

/// The nodes that ask for columns, in the order in which they are laid out: a
/// nested one before the one that it stands in.
pub fn multicol_layout_order(root: &LayoutNode) -> (r: Vec<usize>)
    ensures
        r@ == layout_order(*root),
{
    let ids = collect_multicol_node_ids(root);
    let mut out: Vec<usize> = Vec::new();
    let mut left: usize = ids.len();
    while left > 0
        invariant
            left <= ids@.len(),
            ids@ == multicol_ids(*root),
            out@ =~= ids@.reverse().take(ids@.len() - left),
        decreases left,
    {
        left = left - 1;
        out.push(ids[left]);
    }
    assert(out@ =~= ids@.reverse());
    out
}

proof fn lemma_child_block(node: LayoutNode, k: int, j: int) -> (at: int)
    requires
        0 <= j <= k < node.children@.len(),
    ensures
        0 <= at,
        at + multicol_ids(node.children@[k]).len() <= multicol_ids_below(node, j).len(),
        multicol_ids_below(node, j).subrange(at, at + multicol_ids(node.children@[k]).len()) == multicol_ids(
            node.children@[k],
        ),
    decreases k - j,
{
    let block = multicol_ids(node.children@[k]);
    let here = multicol_ids(node.children@[j]);
    if j == k {
        assert(multicol_ids_below(node, j).subrange(0, block.len() as int) =~= block);
        0
    } else {
        let at = lemma_child_block(node, k, j + 1);
        let rest = multicol_ids_below(node, j + 1);
        assert(multicol_ids_below(node, j).subrange(here.len() + at, here.len() + at + block.len()) =~= rest.subrange(
            at,
            at + block.len(),
        ));
        here.len() + at
    }
}

/// A container with columns is laid out after everything inside it, and each
/// child's part of the order stays together as it is for the child alone.
pub proof fn law_nested_columns_come_first(node: LayoutNode, k: int)
    requires
        0 <= k < node.children@.len(),
    ensures
        node.multicol ==> layout_order(node).last() == node.id,
        exists|at: int|
            0 <= at && at + layout_order(node.children@[k]).len() <= layout_order(node).len() - (if node.multicol {
                1int
            } else {
                0
            }) && #[trigger] layout_order(node).subrange(at, at + layout_order(node.children@[k]).len()) == layout_order(
                node.children@[k],
            ),
{
    let block = multicol_ids(node.children@[k]);
    let all = multicol_ids(node);
    let start = lemma_child_block(node, k, 0);
    let own: int = if node.multicol {
        1
    } else {
        0
    };
    let below = multicol_ids_below(node, 0);
    assert(all.subrange(own + start, own + start + block.len()) =~= below.subrange(start, start + block.len()));
    let at = all.len() - (own + start + block.len());
    assert(layout_order(node).subrange(at, at + block.len()) =~= layout_order(node.children@[k])) by {
        assert forall|i: int| 0 <= i < block.len() implies layout_order(node).subrange(at, at + block.len())[i]
            == layout_order(node.children@[k])[i] by {
            assert(all.subrange(own + start, own + start + block.len())[block.len() - 1 - i] == block[block.len() - 1 - i]);
        }
    }
    assert(layout_order(node.children@[k]).len() == block.len());
}

/// How many nodes of a subtree ask for columns.
pub open spec fn asking(node: LayoutNode) -> nat
    decreases node, node.children@.len() + 1,
{
    (if node.multicol { 1nat } else { 0nat }) + asking_among(node, node.children@.len() as int)
}

/// How many do among the first `k` children and below them.
pub open spec fn asking_among(node: LayoutNode, k: int) -> nat
    decreases node, k,
    when 0 <= k <= node.children@.len()
{
    if k == 0 {
        0
    } else {
        asking_among(node, k - 1) + asking(node.children@[k - 1])
    }
}

/// Every node that asks for columns is laid out once, itself last.
pub proof fn law_every_container_is_laid_out(node: LayoutNode)
    ensures
        layout_order(node).len() == asking(node),
        node.multicol ==> layout_order(node).last() == node.id,
    decreases node, node.children@.len() + 1,
{
    lemma_all_found(node, 0);
}

proof fn lemma_all_found(node: LayoutNode, k: int)
    requires
        0 <= k <= node.children@.len(),
    ensures
        asking_among(node, k) + multicol_ids_below(node, k).len() == asking_among(node, node.children@.len() as int),
    decreases node, node.children@.len() - k,
{
    if k < node.children@.len() {
        lemma_all_found(node, k + 1);
        assert(decreases_to!(node => node.children@[k]));
        law_every_container_is_laid_out(node.children@[k]);
    }
}

} // verus!
