use rendergit::tree::{generate_tree, generate_tree_fallback, TreeEntry};

fn dir(name: &str, children: Vec<TreeEntry>) -> TreeEntry {
    TreeEntry { name: name.to_string(), is_dir: true, children }
}

fn file(name: &str) -> TreeEntry {
    TreeEntry { name: name.to_string(), is_dir: false, children: Vec::new() }
}

#[test]
fn test_generate_tree_fallback() {
    let root = dir("root", vec![dir("src", vec![file("main.rs")]), file("README.md")]);
    let tree = generate_tree_fallback(&root);
    assert!(tree.contains("src"));
    assert!(tree.contains("README.md"));
}

#[test]
fn test_tree_exact_markers() {
    let root = dir("repo", vec![file("README.md"), dir("src", vec![file("main.rs")])]);
    let tree = generate_tree(&root);
    assert_eq!(
        tree,
        "repo\n\u{251c}\u{2500}\u{2500} src\n\u{2502}   \u{2514}\u{2500}\u{2500} main.rs\n\u{2514}\u{2500}\u{2500} README.md"
    );
}

#[test]
fn test_tree_orders_dirs_first_then_names() {
    let root = dir(
        "r",
        vec![file("b.txt"), dir("z", vec![]), file("a.txt"), dir("k", vec![])],
    );
    let tree = generate_tree(&root);
    let zk = tree.find("\u{251c}\u{2500}\u{2500} k").unwrap();
    let zz = tree.find("\u{251c}\u{2500}\u{2500} z").unwrap();
    let fa = tree.find("\u{251c}\u{2500}\u{2500} a.txt").unwrap();
    let fb = tree.find("\u{2514}\u{2500}\u{2500} b.txt").unwrap();
    assert!(zk < zz && zz < fa && fa < fb);
}
