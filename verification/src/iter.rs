use vstd::prelude::*;

use crate::file::File;
use crate::file::forest;
use crate::file::paths_of;
use crate::file_type::FileType;
use crate::laws::lemma_subtree_first;

verus! {

/// The nodes a stack of pending references still stands for: the subtrees
/// rooted at the stacked nodes in pre-order, from the top of the stack down.
spec fn pending<T>(stack: Seq<&File<T>>) -> Seq<File<T>>
    decreases stack,
{
    if stack.len() == 0 {
        Seq::empty()
    } else {
        (*stack.last()).subtree() + pending(stack.drop_last())
    }
}

proof fn lemma_pending_push<T>(stack: Seq<&File<T>>, node: &File<T>)
    ensures
        pending(stack.push(node)) == (*node).subtree() + pending(stack),
{
    assert(stack.push(node).drop_last() =~= stack);
}

/// Peeling the first root off a forest tail: the pre-order of the roots from
/// position `i` on starts with the subtree of the root at `i`.
proof fn lemma_forest_step<T>(roots: Seq<File<T>>, i: int)
    requires
        0 <= i < roots.len(),
    ensures
        forest(roots.subrange(i, roots.len() as int)) == roots[i].subtree() + forest(
            roots.subrange(i + 1, roots.len() as int),
        ),
{
    let tail = roots.subrange(i, roots.len() as int);
    assert(tail[0] == roots[i]);
    assert(tail.drop_first() =~= roots.subrange(i + 1, roots.len() as int));
}

/// Lazy depth-first pre-order traversal over the subtree rooted at one node.
///
/// The traversal keeps an explicit work stack of pending node references
/// instead of recursing, so deep trees cannot exhaust the native call
/// stack. It borrows the tree and is single-pass: to restart, ask the root
/// for a fresh iterator.
pub struct FilesIter<'a, T> {
    stack: Vec<&'a File<T>>,
}

impl<'a, T> FilesIter<'a, T> {
    /// The nodes this traversal has yet to produce, in order.
    pub closed spec fn remaining(self) -> Seq<File<T>> {
        pending(self.stack@)
    }

    /// A traversal of the whole subtree rooted at `root`.
    pub(crate) fn new(root: &'a File<T>) -> (it: Self)
        ensures
            it.remaining() == root.subtree(),
    {
        let mut stack: Vec<&'a File<T>> = Vec::new();
        stack.push(root);
        proof {
            assert(stack@.drop_last() =~= Seq::<&'a File<T>>::empty());
            assert(root.subtree() + pending(stack@.drop_last()) =~= root.subtree());
        }
        FilesIter { stack }
    }

    /// Produce the next node in pre-order, or signal that the subtree has
    /// been exhausted.
    pub fn next(&mut self) -> (r: Option<&'a File<T>>)
        ensures
            (match r {
                Some(node) => {
                    &&& old(self).remaining().len() > 0
                    &&& *node == old(self).remaining()[0]
                    &&& final(self).remaining() == old(self).remaining().drop_first()
                },
                None => {
                    &&& old(self).remaining().len() == 0
                    &&& final(self).remaining() == old(self).remaining()
                },
            }),
    {
        match self.stack.pop() {
            None => None,
            Some(node) => {
                let ghost rest = self.stack@;
                proof {
                    assert(old(self).stack@ == rest.push(node));
                    lemma_pending_push(rest, node);
                    lemma_subtree_first(*node);
                }
                if let FileType::Directory(children) = &node.file_type {
                    let ghost all = children@;
                    let mut i: usize = children.len();
                    proof {
                        assert(all.subrange(i as int, all.len() as int) =~= Seq::<
                            File<T>,
                        >::empty());
                        assert(forest(all.subrange(i as int, all.len() as int)) + pending(rest)
                            =~= pending(rest));
                    }
                    while i > 0
                        invariant
                            i <= all.len(),
                            all == children@,
                            pending(self.stack@) == forest(
                                all.subrange(i as int, all.len() as int),
                            ) + pending(rest),
                        decreases i,
                    {
                        let ghost pre = self.stack@;
                        i = i - 1;
                        self.stack.push(&children[i]);
                        proof {
                            lemma_pending_push(pre, &children[i as int]);
                            lemma_forest_step(all, i as int);
                            assert(pending(self.stack@) =~= forest(
                                all.subrange(i as int, all.len() as int),
                            ) + pending(rest));
                        }
                    }
                    proof {
                        assert(all.subrange(0, all.len() as int) =~= all);
                        assert((*node).subtree() == seq![*node] + forest(all));
                        assert(pending(self.stack@) =~= old(self).remaining().drop_first());
                    }
                } else {
                    proof {
                        assert((*node).subtree() =~= seq![*node]);
                        assert(pending(self.stack@) =~= old(self).remaining().drop_first());
                    }
                }
                Some(node)
            },
        }
    }

    /// Project this traversal to the nodes' path segments.
    pub fn paths(self) -> (it: PathsIter<'a, T>)
        ensures
            it.remaining_paths() == paths_of(self.remaining()),
    {
        PathsIter { inner: self }
    }
}

/// Projection of a depth-first traversal to the nodes' path segments: the
/// same nodes, in the same order, reduced to their `path` field. It holds no
/// traversal logic of its own and ends exactly when the traversal it wraps
/// ends.
pub struct PathsIter<'a, T> {
    inner: FilesIter<'a, T>,
}

impl<'a, T> PathsIter<'a, T> {
    /// The path segments this iteration has yet to produce, in order.
    pub closed spec fn remaining_paths(self) -> Seq<Seq<char>> {
        paths_of(self.inner.remaining())
    }

    /// Produce the next node's path segment in pre-order, or signal that
    /// the subtree has been exhausted.
    pub fn next(&mut self) -> (r: Option<String>)
        ensures
            (match r {
                Some(path) => {
                    &&& old(self).remaining_paths().len() > 0
                    &&& path@ == old(self).remaining_paths()[0]
                    &&& final(self).remaining_paths() == old(self).remaining_paths().drop_first()
                },
                None => {
                    &&& old(self).remaining_paths().len() == 0
                    &&& final(self).remaining_paths() == old(self).remaining_paths()
                },
            }),
    {
        match self.inner.next() {
            None => None,
            Some(node) => {
                proof {
                    assert(paths_of(old(self).inner.remaining().drop_first()) =~= paths_of(
                        old(self).inner.remaining(),
                    ).drop_first());
                }
                Some(node.path.clone())
            },
        }
    }
}

} // verus!
