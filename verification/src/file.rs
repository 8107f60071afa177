use vstd::prelude::*;
use vstd::std_specs::cmp::PartialEqSpec;
use vstd::string::StrSliceExecFns;

use crate::file_type::FileType;
use crate::iter::FilesIter;
use crate::iter::PathsIter;

verus! {

/// A path segment holds a single path component: it never contains the
/// path separator.
pub open spec fn single_component(s: Seq<char>) -> bool {
    forall|i: int| 0 <= i < s.len() ==> s[i] != '/'
}

/// Checks at run time that a path segment is a single component, i.e. free
/// of the path separator.
pub fn is_single_component(path: &str) -> (r: bool)
    ensures
        r == single_component(path@),
{
    let n = path.unicode_len();
    let mut i: usize = 0;
    while i < n
        invariant
            0 <= i <= n,
            n == path@.len(),
            forall|j: int| 0 <= j < i ==> path@[j] != '/',
        decreases n - i,
    {
        if path.get_char(i) == '/' {
            return false;
        }
        i = i + 1;
    }
    true
}

/// One vertex of a filesystem tree: a single path segment, a kind (the sole
/// source of branching), and optional caller-attached metadata.
#[derive(Debug, Eq, PartialOrd, Ord, Hash)]
pub struct File<T> {
    pub path: String,
    pub file_type: FileType<T>,
    pub extra: Option<T>,
}

/// Every node of the subtrees rooted at the nodes of `nodes`, in pre-order,
/// one root after the other in their given order.
pub open spec fn forest<T>(nodes: Seq<File<T>>) -> Seq<File<T>>
    decreases nodes,
{
    if nodes.len() == 0 {
        Seq::empty()
    } else {
        nodes[0].subtree() + forest(nodes.drop_first())
    }
}

/// The number of nodes in all the subtrees rooted at the nodes of `nodes`.
pub open spec fn count_forest<T>(nodes: Seq<File<T>>) -> nat
    decreases nodes,
{
    if nodes.len() == 0 {
        0
    } else {
        nodes[0].count_nodes() + count_forest(nodes.drop_first())
    }
}

/// Whether every node of every subtree rooted at a node of `nodes` holds a
/// single-component path segment.
pub open spec fn forest_wf<T>(nodes: Seq<File<T>>) -> bool
    decreases nodes,
{
    if nodes.len() == 0 {
        true
    } else {
        nodes[0].wf() && forest_wf(nodes.drop_first())
    }
}

/// The path segments of the given nodes, in the same order.
pub open spec fn paths_of<T>(nodes: Seq<File<T>>) -> Seq<Seq<char>> {
    nodes.map_values(|f: File<T>| f.path@)
}

impl<T> File<T> {
    /// The node's children in their stored insertion order; empty unless the
    /// node is a directory.
    pub open spec fn children_seq(self) -> Seq<File<T>> {
        self.file_type.children_seq()
    }

    /// Every node of the subtree rooted at this node, in depth-first
    /// pre-order: the root first, then each child's subtree in the
    /// children's insertion order.
    pub open spec fn subtree(self) -> Seq<File<T>>
        decreases self,
    {
        match self.file_type {
            FileType::Directory(children) => seq![self] + forest(children@),
            _ => seq![self],
        }
    }

    /// The number of nodes in the subtree rooted at this node.
    pub open spec fn count_nodes(self) -> nat
        decreases self,
    {
        match self.file_type {
            FileType::Directory(children) => 1 + count_forest(children@),
            _ => 1,
        }
    }

    /// Well-formedness: every node of the subtree holds a single-component
    /// path segment.
    pub open spec fn wf(self) -> bool
        decreases self,
    {
        match self.file_type {
            FileType::Directory(children) => single_component(self.path@) && forest_wf(children@),
            _ => single_component(self.path@),
        }
    }

    /// Create a `File` from a path segment and a kind, with no metadata.
    ///
    /// The segment must be a single path component; a multi-component path
    /// is a programming error, rejected before the call, never silently
    /// normalized.
    pub fn new(path: String, file_type: FileType<T>) -> (r: File<T>)
        requires
            single_component(path@),
        ensures
            r.path == path,
            r.file_type == file_type,
            r.extra is None,
            forest_wf(file_type.children_seq()) ==> r.wf(),
    {
        File { path, file_type, extra: None }
    }

    /// Create a `File` for a real path from the outcome of classifying that
    /// path. Classification itself is an external capability: its outcome,
    /// the kind on success, is taken as an argument, and a classification
    /// error is propagated verbatim.
    pub fn new_from_path<E>(path: String, classified: Result<FileType<T>, E>) -> (r: Result<
        File<T>,
        E,
    >)
        requires
            single_component(path@),
        ensures
            match classified {
                Ok(file_type) => r matches Ok(f) && f.path == path && f.file_type == file_type
                    && f.extra is None,
                Err(e) => r matches Err(e2) && e2 == e,
            },
    {
        match classified {
            Ok(file_type) => Ok(File::new(path, file_type)),
            Err(e) => Err(e),
        }
    }

    /// A lazy depth-first pre-order traversal over every node of the
    /// subtree rooted at this node, this node first.
    pub fn files(&self) -> (it: FilesIter<'_, T>)
        ensures
            it.remaining() == self.subtree(),
    {
        FilesIter::new(self)
    }

    /// Shorthand for `self.files().paths()`: the traversal projected to the
    /// nodes' path segments.
    pub fn paths(&self) -> (it: PathsIter<'_, T>)
        ensures
            it.remaining_paths() == paths_of(self.subtree()),
    {
        self.files().paths()
    }

    /// The node's children if it is a directory, absence otherwise — never
    /// an error.
    pub fn children(&self) -> (r: Option<&Vec<File<T>>>)
        ensures
            match r {
                Some(v) => self.file_type.is_dir() && v@ == self.children_seq(),
                None => !self.file_type.is_dir(),
            },
    {
        self.file_type.children()
    }
}

/// What `==` means on trees: the path segments agree, the extras agree by
/// the metadata type's own equality, and the kinds agree — recursively, with
/// the children compared pairwise in order.
pub open spec fn tree_eq_spec<T: PartialEq>(a: File<T>, b: File<T>) -> bool
    decreases a,
{
    &&& a.path@ == b.path@
    &&& a.extra.eq_spec(&b.extra)
    &&& crate::file_type::kind_eq_spec(a.file_type, b.file_type)
}

/// Pairwise tree equality of two rows of roots, in order.
pub open spec fn forest_eq_spec<T: PartialEq>(a: Seq<File<T>>, b: Seq<File<T>>) -> bool
    decreases a,
{
    if a.len() != b.len() {
        false
    } else if a.len() == 0 {
        true
    } else {
        tree_eq_spec(a[0], b[0]) && forest_eq_spec(a.drop_first(), b.drop_first())
    }
}

/// Pairwise tree equality is the same as tree equality at every index.
pub proof fn lemma_forest_eq_pointwise<T: PartialEq>(a: Seq<File<T>>, b: Seq<File<T>>)
    ensures
        forest_eq_spec(a, b) <==> (a.len() == b.len() && forall|i: int|
            0 <= i < a.len() ==> tree_eq_spec(a[i], b[i])),
    decreases a,
{
    if a.len() == b.len() && a.len() > 0 {
        let da = a.drop_first();
        let db = b.drop_first();
        lemma_forest_eq_pointwise(da, db);
        if forest_eq_spec(a, b) {
            assert forall|i: int| 0 <= i < a.len() implies tree_eq_spec(a[i], b[i]) by {
                if i > 0 {
                    assert(tree_eq_spec(da[i - 1], db[i - 1]));
                    assert(da[i - 1] == a[i]);
                    assert(db[i - 1] == b[i]);
                }
            }
        }
        if forall|i: int| 0 <= i < a.len() ==> #[trigger] tree_eq_spec(a[i], b[i]) {
            assert forall|j: int| 0 <= j < da.len() implies tree_eq_spec(da[j], db[j]) by {
                assert(tree_eq_spec(a[j + 1], b[j + 1]));
                assert(da[j] == a[j + 1]);
                assert(db[j] == b[j + 1]);
            }
            assert(tree_eq_spec(a[0], b[0]));
            assert(forest_eq_spec(da, db));
        }
    }
}

impl<T: PartialEq> PartialEq for File<T> {
    /// Structural equality, as `tree_eq_spec` states it.
    fn eq(&self, other: &Self) -> (r: bool)
        decreases *self,
    {
        proof {
            assert(decreases_to!(*self => self.file_type));
        }
        let path_eq = self.path == other.path;
        let extra_eq = self.extra == other.extra;
        let kind_eq = self.file_type == other.file_type;
        path_eq && extra_eq && kind_eq
    }
}

impl<T: PartialEq> vstd::std_specs::cmp::PartialEqSpecImpl for File<T> {
    open spec fn obeys_eq_spec() -> bool {
        T::obeys_eq_spec()
    }

    open spec fn eq_spec(&self, other: &File<T>) -> bool {
        tree_eq_spec(*self, *other)
    }
}

/// The clone relation on trees: the same path segments and kinds at every
/// node, the children in the same order, and each extra a clone of its
/// source.
pub open spec fn tree_cloned<T: Clone>(a: File<T>, b: File<T>) -> bool
    decreases a,
{
    &&& a.path@ == b.path@
    &&& match (a.extra, b.extra) {
        (Some(x), Some(y)) => cloned::<T>(x, y),
        (None, None) => true,
        _ => false,
    }
    &&& crate::file_type::kind_cloned(a.file_type, b.file_type)
}

/// Pairwise clone relation of two rows of roots, in order.
pub open spec fn forest_cloned<T: Clone>(a: Seq<File<T>>, b: Seq<File<T>>) -> bool
    decreases a,
{
    if a.len() != b.len() {
        false
    } else if a.len() == 0 {
        true
    } else {
        tree_cloned(a[0], b[0]) && forest_cloned(a.drop_first(), b.drop_first())
    }
}

/// The pairwise clone relation is the same as the clone relation at every
/// index.
pub proof fn lemma_forest_cloned_pointwise<T: Clone>(a: Seq<File<T>>, b: Seq<File<T>>)
    ensures
        forest_cloned(a, b) <==> (a.len() == b.len() && forall|i: int|
            0 <= i < a.len() ==> tree_cloned(a[i], b[i])),
    decreases a,
{
    if a.len() == b.len() && a.len() > 0 {
        let da = a.drop_first();
        let db = b.drop_first();
        lemma_forest_cloned_pointwise(da, db);
        if forest_cloned(a, b) {
            assert forall|i: int| 0 <= i < a.len() implies tree_cloned(a[i], b[i]) by {
                if i > 0 {
                    assert(tree_cloned(da[i - 1], db[i - 1]));
                    assert(da[i - 1] == a[i]);
                    assert(db[i - 1] == b[i]);
                }
            }
        }
        if forall|i: int| 0 <= i < a.len() ==> #[trigger] tree_cloned(a[i], b[i]) {
            assert forall|j: int| 0 <= j < da.len() implies tree_cloned(da[j], db[j]) by {
                assert(tree_cloned(a[j + 1], b[j + 1]));
                assert(da[j] == a[j + 1]);
                assert(db[j] == b[j + 1]);
            }
            assert(tree_cloned(a[0], b[0]));
            assert(forest_cloned(da, db));
        }
    }
}

impl<T: Clone> Clone for File<T> {
    /// A deep copy: the same path segments and kinds everywhere, the extras
    /// cloned.
    fn clone(&self) -> (res: Self)
        ensures
            tree_cloned(*self, res),
        decreases *self,
    {
        proof {
            assert(decreases_to!(*self => self.file_type));
        }
        File {
            path: self.path.clone(),
            file_type: self.file_type.clone(),
            extra: self.extra.clone(),
        }
    }
}

impl<T: Default> Default for File<T> {
    /// A placeholder node: empty path segment, neutral kind, no metadata.
    fn default() -> (r: Self)
        ensures
            r.path@ == Seq::<char>::empty(),
            r.file_type == FileType::<T>::Regular,
            r.extra is None,
            r.wf(),
    {
        File { path: String::new(), file_type: FileType::default(), extra: None }
    }
}

} // verus!
