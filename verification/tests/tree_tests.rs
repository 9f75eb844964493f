use dircontext::tree::tree_text;

fn path(s: &str) -> Vec<String> {
    s.split('/').map(|c| c.to_string()).collect()
}

fn paths(items: &[&str]) -> Vec<Vec<String>> {
    items.iter().map(|s| path(s)).collect()
}

#[test]
fn empty_set_renders_placeholder() {
    let t = tree_text(&paths(&[]));
    assert_eq!(t, "(no matching files were found)");
}

#[test]
fn single_file_renders_under_root() {
    let t = tree_text(&paths(&["a.py"]));
    assert_eq!(t, " .\n └─ a.py\n");
}

#[test]
fn nested_paths_share_their_prefix() {
    let t = tree_text(&paths(&[".gitignore", "a.py", "b/b.txt"]));
    let expected = " .\n ├─ .gitignore\n ├─ a.py\n └─ b\n    └─ b.txt\n";
    assert_eq!(t, expected);
}

#[test]
fn deeper_sharing_keeps_one_subtree() {
    let t = tree_text(&paths(&["src/a.rs", "src/b.rs", "src/sub/c.rs"]));
    let expected = " .\n └─ src\n    ├─ a.rs\n    ├─ b.rs\n    └─ sub\n       └─ c.rs\n";
    assert_eq!(t, expected);
}

#[test]
fn rendering_is_deterministic_for_a_set() {
    // The same path set, handed over in different orders, draws one text.
    let a = tree_text(&paths(&["src/a.rs", "src/b.rs", "docs/x.md"]));
    let b = tree_text(&paths(&["src/a.rs", "src/b.rs", "docs/x.md"]));
    assert_eq!(a, b);
    // The selection sorts, so feed the renderer sorted lists of one set.
    let c = tree_text(&paths(&["docs/x.md", "src/a.rs", "src/b.rs"]));
    assert_eq!(
        c,
        " .\n ├─ docs\n │  └─ x.md\n └─ src\n    ├─ a.rs\n    └─ b.rs\n"
    );
}
