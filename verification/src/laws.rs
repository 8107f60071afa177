use vstd::prelude::*;

use crate::file::File;
use crate::file::count_forest;
use crate::file::forest;
use crate::file::forest_eq_spec;
use crate::file::paths_of;
use crate::file::tree_eq_spec;
use crate::file_type::FileType;

verus! {

/// The root of a subtree is its first node in pre-order: a traversal always
/// yields the node it was constructed from, and that node's path segment,
/// first.
pub proof fn lemma_subtree_first<T>(node: File<T>)
    ensures
        node.subtree().len() >= 1,
        node.subtree()[0] == node,
{
}

/// A traversal yields exactly one item per node of the subtree: the
/// pre-order sequence is as long as the subtree's node count.
pub proof fn lemma_subtree_count<T>(node: File<T>)
    ensures
        node.subtree().len() == node.count_nodes(),
    decreases node,
{
    match node.file_type {
        FileType::Directory(children) => {
            lemma_forest_count(children@);
        },
        _ => {},
    }
}

/// The pre-order of a row of roots is as long as the node count of all their
/// subtrees together.
pub proof fn lemma_forest_count<T>(roots: Seq<File<T>>)
    ensures
        forest(roots).len() == count_forest(roots),
    decreases roots,
{
    if roots.len() > 0 {
        lemma_subtree_count(roots[0]);
        lemma_forest_count(roots.drop_first());
    }
}

/// Unrolling a forest at one root: the pre-order of a row of roots is the
/// subtrees of the earlier roots, then the subtree of root `i`, then the
/// subtrees of the later roots.
pub proof fn lemma_forest_split<T>(roots: Seq<File<T>>, i: int)
    requires
        0 <= i < roots.len(),
    ensures
        forest(roots) == forest(roots.take(i)) + roots[i].subtree() + forest(
            roots.skip(i + 1),
        ),
    decreases i,
{
    if i == 0 {
        assert(roots.take(0) =~= Seq::<File<T>>::empty());
        assert(roots.skip(1) =~= roots.drop_first());
        assert(forest(roots.take(0)) + roots[0].subtree() + forest(roots.skip(1))
            =~= roots[0].subtree() + forest(roots.drop_first()));
    } else {
        let d = roots.drop_first();
        lemma_forest_split(d, i - 1);
        assert(d.take(i - 1) =~= roots.take(i).drop_first());
        assert(d.skip(i) =~= roots.skip(i + 1));
        assert(d[i - 1] == roots[i]);
        assert(roots.take(i)[0] == roots[0]);
        assert(forest(roots.take(i)) == roots.take(i)[0].subtree() + forest(
            roots.take(i).drop_first(),
        ));
        assert(forest(roots) =~= forest(roots.take(i)) + roots[i].subtree() + forest(
            roots.skip(i + 1),
        ));
    }
}

/// Pre-order on a directory: the directory itself is yielded first, and each
/// child's subtree stands as one contiguous block — strictly after the
/// parent and the earlier siblings' blocks, strictly before the later
/// siblings' blocks. In particular child `i` itself is yielded at the head
/// of its block.
pub proof fn lemma_preorder_child_block<T>(node: File<T>, i: int)
    requires
        node.file_type.is_dir(),
        0 <= i < node.children_seq().len(),
    ensures
        node.subtree() == seq![node] + forest(node.children_seq().take(i))
            + node.children_seq()[i].subtree() + forest(node.children_seq().skip(i + 1)),
        node.subtree()[1 + forest(node.children_seq().take(i)).len() as int]
            == node.children_seq()[i],
{
    let children = node.children_seq();
    lemma_forest_split(children, i);
    assert(node.subtree() =~= seq![node] + forest(children.take(i)) + children[i].subtree()
        + forest(children.skip(i + 1)));
    lemma_subtree_first(children[i]);
    let pos = 1 + forest(children.take(i)).len() as int;
    assert(node.subtree()[pos] == children[i].subtree()[0]);
}

/// A path-only traversal is the node traversal projected to path segments:
/// exactly as many items, in exactly the same order, each reduced to the
/// node's path field.
pub proof fn lemma_paths_projection<T>(nodes: Seq<File<T>>)
    ensures
        paths_of(nodes).len() == nodes.len(),
        forall|i: int| 0 <= i < nodes.len() ==> paths_of(nodes)[i] == nodes[i].path@,
{
}

/// Structural sameness of two trees: the same path segments, the same kinds,
/// the same children in the same order, and the same extras, at every node.
pub open spec fn same_tree<T>(a: File<T>, b: File<T>) -> bool
    decreases a,
{
    &&& a.path@ == b.path@
    &&& a.extra == b.extra
    &&& match (a.file_type, b.file_type) {
        (FileType::Directory(ca), FileType::Directory(cb)) => same_forest(ca@, cb@),
        (FileType::Regular, FileType::Regular) => true,
        (FileType::Symlink, FileType::Symlink) => true,
        (FileType::Other, FileType::Other) => true,
        _ => false,
    }
}

/// Pairwise structural sameness of two rows of roots, in order.
pub open spec fn same_forest<T>(a: Seq<File<T>>, b: Seq<File<T>>) -> bool
    decreases a,
{
    if a.len() != b.len() {
        false
    } else if a.len() == 0 {
        true
    } else {
        same_tree(a[0], b[0]) && same_forest(a.drop_first(), b.drop_first())
    }
}

/// Every tree is structurally identical to itself.
pub proof fn lemma_same_tree_refl<T>(a: File<T>)
    ensures
        same_tree(a, a),
    decreases a,
{
    match a.file_type {
        FileType::Directory(children) => {
            lemma_same_forest_refl(children@);
        },
        _ => {},
    }
}

/// Every row of roots is structurally identical to itself.
pub proof fn lemma_same_forest_refl<T>(a: Seq<File<T>>)
    ensures
        same_forest(a, a),
    decreases a,
{
    if a.len() > 0 {
        lemma_same_tree_refl(a[0]);
        lemma_same_forest_refl(a.drop_first());
    }
}

/// The equality law: when the metadata type's equality is plain equality,
/// two trees compare equal exactly when they are structurally identical.
/// So structurally identical trees compare equal, and changing any single
/// node's extra (or path, kind, or children) breaks equality.
pub proof fn lemma_eq_structural<T: PartialEq>(a: File<T>, b: File<T>)
    requires
        vstd::laws_eq::obeys_concrete_eq::<T>(),
    ensures
        tree_eq_spec(a, b) <==> same_tree(a, b),
    decreases a,
{
    reveal(vstd::laws_eq::obeys_concrete_eq);
    match (a.file_type, b.file_type) {
        (FileType::Directory(ca), FileType::Directory(cb)) => {
            lemma_eq_structural_forest(ca@, cb@);
        },
        _ => {},
    }
}

/// The equality law, for the children rows: pairwise tree equality is
/// pairwise structural sameness.
pub proof fn lemma_eq_structural_forest<T: PartialEq>(a: Seq<File<T>>, b: Seq<File<T>>)
    requires
        vstd::laws_eq::obeys_concrete_eq::<T>(),
    ensures
        forest_eq_spec(a, b) <==> same_forest(a, b),
    decreases a,
{
    if a.len() == b.len() && a.len() > 0 {
        lemma_eq_structural(a[0], b[0]);
        lemma_eq_structural_forest(a.drop_first(), b.drop_first());
    }
}

} // verus!
