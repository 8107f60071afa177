use file_structure::File;
use file_structure::FileType;
use file_structure::file::is_single_component;

fn leaf(path: &str) -> File<u32> {
    File::new(String::from(path), FileType::Regular)
}

fn dir(path: &str, children: Vec<File<u32>>) -> File<u32> {
    File::new(String::from(path), FileType::Directory(children))
}

fn collect_nodes<'a>(root: &'a File<u32>) -> Vec<&'a File<u32>> {
    let mut out = Vec::new();
    let mut it = root.files();
    while let Some(node) = it.next() {
        out.push(node);
    }
    out
}

fn collect_paths(root: &File<u32>) -> Vec<String> {
    let mut out = Vec::new();
    let mut it = root.paths();
    while let Some(path) = it.next() {
        out.push(path);
    }
    out
}

#[test]
fn traversal_counts_every_node_and_starts_at_the_root() {
    let tree = dir(
        "root",
        vec![
            dir("sub", vec![leaf("x"), leaf("y")]),
            leaf("z"),
            dir("empty", vec![]),
        ],
    );
    let nodes = collect_nodes(&tree);
    assert_eq!(nodes.len(), 6);
    assert_eq!(nodes[0].path, "root");
}

#[test]
fn traversal_is_preorder() {
    let tree = dir(
        "root",
        vec![dir("first", vec![leaf("inner")]), dir("second", vec![leaf("last")])],
    );
    let paths = collect_paths(&tree);
    // a child comes strictly after its parent and strictly before the
    // subtrees of the parent's later siblings
    assert_eq!(paths, vec!["root", "first", "inner", "second", "last"]);
}

#[test]
fn paths_projects_nodes_one_to_one() {
    let tree = dir(
        "root",
        vec![leaf("a"), dir("d", vec![leaf("b")]), leaf("c")],
    );
    let nodes = collect_nodes(&tree);
    let paths = collect_paths(&tree);
    assert_eq!(paths.len(), nodes.len());
    for (node, path) in nodes.iter().zip(paths.iter()) {
        assert_eq!(&node.path, path);
    }
}

#[test]
fn multi_component_path_fails_the_precondition_check() {
    assert!(!is_single_component("a/b"));
    assert!(!is_single_component("/"));
    assert!(is_single_component("a"));
    assert!(is_single_component(""));
}

#[test]
fn sibling_insertion_order_is_preserved_not_sorted() {
    let tree = dir("root", vec![leaf("b"), leaf("a"), leaf("c")]);
    let paths = collect_paths(&tree);
    assert_eq!(paths, vec!["root", "b", "a", "c"]);
}

#[test]
fn structurally_identical_trees_compare_equal() {
    let make = || {
        let mut inner = leaf("x");
        inner.extra = Some(7);
        dir("root", vec![inner, leaf("y")])
    };
    assert_eq!(make(), make());
}

#[test]
fn changing_one_leaf_extra_breaks_equality() {
    let make = |extra: Option<u32>| {
        let mut inner = leaf("x");
        inner.extra = extra;
        dir("root", vec![leaf("w"), dir("d", vec![inner])])
    };
    assert_ne!(make(Some(1)), make(Some(2)));
    assert_ne!(make(Some(1)), make(None));
    assert_eq!(make(Some(1)), make(Some(1)));
}

#[test]
fn different_kind_or_path_breaks_equality() {
    assert_ne!(leaf("a"), leaf("b"));
    assert_ne!(
        leaf("a"),
        File::<u32>::new(String::from("a"), FileType::Symlink)
    );
    assert_ne!(leaf("a"), dir("a", vec![]));
    assert_ne!(dir("a", vec![leaf("x")]), dir("a", vec![]));
}

#[test]
fn empty_directory_yields_exactly_its_own_node() {
    let tree = dir("lonely", vec![]);
    let mut it = tree.files();
    let first = it.next().expect("the root itself must be yielded");
    assert_eq!(first.path, "lonely");
    assert!(it.next().is_none());
    assert!(it.next().is_none());
}

#[test]
fn new_sets_no_extra() {
    let node = leaf("a");
    assert_eq!(node.extra, None);
    assert_eq!(node.path, "a");
    assert!(matches!(node.file_type, FileType::Regular));
}

#[test]
fn new_from_path_builds_from_a_classification() {
    let got: Result<File<u32>, String> =
        File::new_from_path(String::from("etc"), Ok(FileType::Directory(vec![])));
    let node = got.expect("a classified kind must give a node");
    assert_eq!(node.path, "etc");
    assert!(matches!(node.file_type, FileType::Directory(_)));
    assert_eq!(node.extra, None);
}

#[test]
fn new_from_path_propagates_the_classification_error_verbatim() {
    let got: Result<File<u32>, String> =
        File::new_from_path(String::from("gone"), Err(String::from("no such path")));
    assert_eq!(got.unwrap_err(), "no such path");
}

#[test]
fn children_of_a_directory_are_its_ordered_children() {
    let tree = dir("root", vec![leaf("b"), leaf("a")]);
    let children = tree.children().expect("a directory has children");
    assert_eq!(children.len(), 2);
    assert_eq!(children[0].path, "b");
    assert_eq!(children[1].path, "a");
}

#[test]
fn leaves_have_no_children() {
    assert!(leaf("a").children().is_none());
    assert!(File::<u32>::new(String::from("s"), FileType::Symlink).children().is_none());
    assert!(File::<u32>::new(String::from("o"), FileType::Other).children().is_none());
}

#[test]
fn clone_makes_an_equal_independent_tree() {
    let mut inner = leaf("x");
    inner.extra = Some(9);
    let tree = dir("root", vec![inner, dir("d", vec![leaf("y")])]);
    let mut copy = tree.clone();
    assert_eq!(copy, tree);
    copy.extra = Some(1);
    assert_ne!(copy, tree);
    assert_eq!(tree.extra, None);
}

#[test]
fn ordering_is_lexicographic_over_the_fields() {
    // the core never sorts siblings itself, but a caller may
    let mut siblings = vec![leaf("b"), leaf("a"), leaf("c")];
    siblings.sort();
    let tree = dir("root", siblings);
    assert_eq!(collect_paths(&tree), vec!["root", "a", "b", "c"]);
    assert!(leaf("a") < leaf("b"));
}

#[test]
fn default_is_an_empty_placeholder() {
    let node: File<u32> = Default::default();
    assert_eq!(node.path, "");
    assert!(matches!(node.file_type, FileType::Regular));
    assert_eq!(node.extra, None);
}

#[test]
fn default_kind_is_regular() {
    let kind: FileType<u32> = Default::default();
    assert!(matches!(kind, FileType::Regular));
}

#[test]
fn deep_tree_traverses_without_recursion() {
    // the traversal keeps its own stack, so a tree deeper than any native
    // call stack still walks to the end
    let mut node = leaf("bottom");
    for i in 0..10_000u32 {
        let mut d = dir("level", vec![node]);
        d.extra = Some(i);
        node = d;
    }
    let mut count: usize = 0;
    let mut it = node.files();
    while let Some(_) = it.next() {
        count += 1;
    }
    assert_eq!(count, 10_001);
}
