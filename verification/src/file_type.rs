use vstd::prelude::*;
use vstd::std_specs::cmp::PartialEqSpec;

use crate::file::File;
use crate::file::forest_eq_spec;
use crate::file::lemma_forest_eq_pointwise;
use crate::file::tree_eq_spec;

verus! {

/// The kind of a filesystem tree node.
///
/// Only the `Directory` variant carries children; every other variant is
/// always a leaf. The children are owned exclusively by their parent, so a
/// tree is acyclic by construction.
#[derive(Debug, Eq, PartialOrd, Ord, Hash)]
pub enum FileType<T> {
    Regular,
    Directory(Vec<File<T>>),
    Symlink,
    Other,
}

impl<T> FileType<T> {
    /// The children carried by this kind: the directory's children in their
    /// stored insertion order, or the empty sequence for every leaf kind.
    pub open spec fn children_seq(self) -> Seq<File<T>> {
        match self {
            FileType::Directory(children) => children@,
            _ => Seq::empty(),
        }
    }

    /// Whether this kind is the branching (directory) kind.
    pub open spec fn is_dir(self) -> bool {
        self is Directory
    }

    /// The children if this kind is a directory, absence otherwise.
    pub fn children(&self) -> (r: Option<&Vec<File<T>>>)
        ensures
            match r {
                Some(v) => self.is_dir() && v@ == self.children_seq(),
                None => !self.is_dir(),
            },
    {
        match self {
            FileType::Directory(children) => Some(children),
            _ => None,
        }
    }
}

/// What `==` means on kinds: the same variant, and for directories the same
/// children — compared as trees, pairwise, in order.
pub open spec fn kind_eq_spec<T: PartialEq>(a: FileType<T>, b: FileType<T>) -> bool
    decreases a,
{
    match (a, b) {
        (FileType::Directory(ca), FileType::Directory(cb)) => forest_eq_spec(ca@, cb@),
        (FileType::Regular, FileType::Regular) => true,
        (FileType::Symlink, FileType::Symlink) => true,
        (FileType::Other, FileType::Other) => true,
        _ => false,
    }
}

impl<T: PartialEq> PartialEq for FileType<T> {
    /// Variant-and-children equality, as `kind_eq_spec` states it.
    fn eq(&self, other: &Self) -> (r: bool)
        decreases *self,
    {
        match (self, other) {
            (FileType::Directory(ca), FileType::Directory(cb)) => {
                if ca.len() != cb.len() {
                    return false;
                }
                let n = ca.len();
                let mut i: usize = 0;
                while i < n
                    invariant
                        0 <= i <= n,
                        n == ca@.len() == cb@.len(),
                        *self == FileType::Directory(*ca),
                        *other == FileType::Directory(*cb),
                        T::obeys_eq_spec() ==> forall|j: int|
                            0 <= j < i ==> tree_eq_spec(ca@[j], cb@[j]),
                    decreases n - i,
                {
                    proof {
                        assert((*self)->Directory_0 == *ca);
                        assert(decreases_to!(*self => (*self)->Directory_0));
                        assert(decreases_to!(*ca => ca@[i as int]));
                        assert(decreases_to!(*self => ca@[i as int]));
                    }
                    if !(ca[i] == cb[i]) {
                        proof {
                            if T::obeys_eq_spec() {
                                lemma_forest_eq_pointwise(ca@, cb@);
                                assert(!tree_eq_spec(ca@[i as int], cb@[i as int]));
                                assert(!forest_eq_spec(ca@, cb@));
                                assert(!kind_eq_spec(*self, *other));
                            }
                        }
                        return false;
                    }
                    i = i + 1;
                }
                proof {
                    if T::obeys_eq_spec() {
                        lemma_forest_eq_pointwise(ca@, cb@);
                        assert(forest_eq_spec(ca@, cb@));
                        assert(kind_eq_spec(*self, *other));
                    }
                }
                true
            },
            (FileType::Regular, FileType::Regular) => true,
            (FileType::Symlink, FileType::Symlink) => true,
            (FileType::Other, FileType::Other) => true,
            _ => false,
        }
    }
}

/// The clone relation on kinds: the same variant, and for directories the
/// children cloned pairwise, in order.
pub open spec fn kind_cloned<T: Clone>(a: FileType<T>, b: FileType<T>) -> bool
    decreases a,
{
    match (a, b) {
        (FileType::Directory(ca), FileType::Directory(cb)) => crate::file::forest_cloned(
            ca@,
            cb@,
        ),
        (FileType::Regular, FileType::Regular) => true,
        (FileType::Symlink, FileType::Symlink) => true,
        (FileType::Other, FileType::Other) => true,
        _ => false,
    }
}

impl<T: Clone> Clone for FileType<T> {
    /// A deep copy of the kind: directory children are cloned in order.
    fn clone(&self) -> (res: Self)
        ensures
            kind_cloned(*self, res),
        decreases *self,
    {
        match self {
            FileType::Regular => FileType::Regular,
            FileType::Symlink => FileType::Symlink,
            FileType::Other => FileType::Other,
            FileType::Directory(children) => {
                let mut copies: Vec<File<T>> = Vec::new();
                let n = children.len();
                let mut i: usize = 0;
                while i < n
                    invariant
                        0 <= i <= n,
                        n == children@.len(),
                        *self == FileType::Directory(*children),
                        copies@.len() == i as nat,
                        forall|j: int|
                            0 <= j < i ==> crate::file::tree_cloned(children@[j], copies@[j]),
                    decreases n - i,
                {
                    proof {
                        assert((*self)->Directory_0 == *children);
                        assert(decreases_to!(*self => (*self)->Directory_0));
                        assert(decreases_to!(*children => children@[i as int]));
                        assert(decreases_to!(*self => children@[i as int]));
                    }
                    copies.push(children[i].clone());
                    i = i + 1;
                }
                proof {
                    crate::file::lemma_forest_cloned_pointwise(children@, copies@);
                    assert(crate::file::forest_cloned(children@, copies@));
                }
                FileType::Directory(copies)
            },
        }
    }
}

impl<T: PartialEq> vstd::std_specs::cmp::PartialEqSpecImpl for FileType<T> {
    open spec fn obeys_eq_spec() -> bool {
        T::obeys_eq_spec()
    }

    open spec fn eq_spec(&self, other: &FileType<T>) -> bool {
        kind_eq_spec(*self, *other)
    }
}

impl<T> Default for FileType<T> {
    /// The neutral kind: a regular file, carrying no children.
    fn default() -> (r: Self)
        ensures
            r == FileType::<T>::Regular,
    {
        FileType::Regular
    }
}

} // verus!
