use dircontext::filter::{CompiledFilter, FilterConfig};
use dircontext::select::select_files;

fn path(s: &str) -> Vec<String> {
    s.split('/').map(|c| c.to_string()).collect()
}

fn paths(items: &[&str]) -> Vec<Vec<String>> {
    items.iter().map(|s| path(s)).collect()
}

fn empty_filter() -> CompiledFilter {
    CompiledFilter::build(&FilterConfig {
        include_ext: vec![],
        exclude_ext: vec![],
        include_path: vec![],
        exclude_path: vec![],
        filter_tree: false,
        include_gitignore: false,
    })
    .unwrap()
}

fn ext_filter(include_ext: &[&str], exclude_ext: &[&str]) -> CompiledFilter {
    CompiledFilter::build(&FilterConfig {
        include_ext: include_ext.iter().map(|s| s.to_string()).collect(),
        exclude_ext: exclude_ext.iter().map(|s| s.to_string()).collect(),
        include_path: vec![],
        exclude_path: vec![],
        filter_tree: false,
        include_gitignore: false,
    })
    .unwrap()
}

#[test]
fn selection_sorts_and_deduplicates() {
    let f = empty_filter();
    let input = paths(&["b.txt", "a.txt", "b.txt", "a.txt"]);
    let out = select_files(&f, &input, true, false);
    assert_eq!(out, paths(&["a.txt", "b.txt"]));
}

#[test]
fn selection_orders_by_path_components() {
    // Component-wise order: "a/c" sorts before "a-b", unlike plain string order.
    let f = empty_filter();
    let input = paths(&["a-b", "a/c"]);
    let out = select_files(&f, &input, true, false);
    assert_eq!(out, paths(&["a/c", "a-b"]));
}

#[test]
fn selection_is_order_independent() {
    let f = empty_filter();
    let one = paths(&["x/y.rs", "a.md", "x/z.rs", "b.md"]);
    let two = paths(&["b.md", "x/z.rs", "a.md", "x/y.rs"]);
    let out1 = select_files(&f, &one, true, true);
    let out2 = select_files(&f, &two, true, true);
    assert_eq!(out1, out2);
}

#[test]
fn gitignore_is_forced_into_both_sets() {
    // Even a filter that rejects everything keeps the root's .gitignore.
    let f = ext_filter(&["py"], &[]);
    let input = paths(&["notes.txt"]);
    let content = select_files(&f, &input, true, true);
    assert_eq!(content, paths(&[".gitignore"]));
    let tree = select_files(&f, &input, false, true);
    assert_eq!(tree, paths(&[".gitignore", "notes.txt"]));
}

#[test]
fn gitignore_absent_is_not_invented() {
    let f = empty_filter();
    let input = paths(&["notes.txt"]);
    let out = select_files(&f, &input, true, false);
    assert_eq!(out, paths(&["notes.txt"]));
}

#[test]
fn default_run_scenario_honors_ignore_rules() {
    // Root: a.py (3 lines), b/b.txt, and a .gitignore holding "b/": the walk
    // that honors ignore rules never yields b/b.txt.
    let f = empty_filter();
    let walked = paths(&["a.py", ".gitignore"]);
    let content = select_files(&f, &walked, true, true);
    assert_eq!(content, paths(&[".gitignore", "a.py"]));
    let tree = select_files(&f, &walked, false, true);
    assert_eq!(tree, paths(&[".gitignore", "a.py"]));
}

#[test]
fn include_gitignore_scenario_keeps_ignored_files() {
    // The same root walked without honoring ignore rules also yields b/b.txt.
    let f = empty_filter();
    let walked = paths(&["a.py", ".gitignore", "b/b.txt"]);
    let content = select_files(&f, &walked, true, true);
    assert_eq!(content, paths(&[".gitignore", "a.py", "b/b.txt"]));
}

#[test]
fn tree_set_ignores_extension_filters_by_default() {
    let f = ext_filter(&["py"], &[]);
    let walked = paths(&["a.py", "b/b.txt"]);
    let content = select_files(&f, &walked, true, false);
    assert_eq!(content, paths(&["a.py"]));
    let tree = select_files(&f, &walked, false, false);
    assert_eq!(tree, paths(&["a.py", "b/b.txt"]));
}

#[test]
fn selection_applies_extension_scenario() {
    let f = ext_filter(&["py"], &["pyc"]);
    let walked = paths(&["x.py", "x.pyc", "x.txt"]);
    let content = select_files(&f, &walked, true, false);
    assert_eq!(content, paths(&["x.py"]));
}
