use dircontext::filter::{CompiledFilter, FilterConfig, FilterError};

fn path(s: &str) -> Vec<String> {
    s.split('/').map(|c| c.to_string()).collect()
}

fn strings(items: &[&str]) -> Vec<String> {
    items.iter().map(|s| s.to_string()).collect()
}

fn config(
    include_ext: &[&str],
    exclude_ext: &[&str],
    include_path: &[&str],
    exclude_path: &[&str],
) -> FilterConfig {
    FilterConfig {
        include_ext: strings(include_ext),
        exclude_ext: strings(exclude_ext),
        include_path: strings(include_path),
        exclude_path: strings(exclude_path),
        filter_tree: false,
        include_gitignore: false,
    }
}

#[test]
fn empty_filter_passes_everything() {
    let f = CompiledFilter::build(&config(&[], &[], &[], &[])).unwrap();
    assert!(f.path_passes(&path("a.py")));
    assert!(f.path_passes(&path("deep/dir/file.txt")));
    assert!(f.path_passes(&path(".gitignore")));
    assert!(f.path_passes(&path("noextension")));
}

#[test]
fn include_ext_requires_listed_extension() {
    let f = CompiledFilter::build(&config(&["py"], &[], &[], &[])).unwrap();
    assert!(f.path_passes(&path("x.py")));
    assert!(!f.path_passes(&path("x.txt")));
    assert!(!f.path_passes(&path("noextension")));
    assert!(!f.path_passes(&path(".gitignore")));
}

#[test]
fn exclude_ext_rejects_listed_extension() {
    let f = CompiledFilter::build(&config(&[], &["pyc"], &[], &[])).unwrap();
    assert!(f.path_passes(&path("x.py")));
    assert!(!f.path_passes(&path("x.pyc")));
    assert!(f.path_passes(&path("noextension")));
}

#[test]
fn extension_compare_is_case_insensitive() {
    let f = CompiledFilter::build(&config(&["PY"], &[], &[], &[])).unwrap();
    assert!(f.path_passes(&path("x.py")));
    assert!(f.path_passes(&path("x.PY")));
    let g = CompiledFilter::build(&config(&[], &["Pyc"], &[], &[])).unwrap();
    assert!(!g.path_passes(&path("x.PYC")));
}

#[test]
fn exclude_path_regex_matches_relative_path() {
    let f = CompiledFilter::build(&config(&[], &[], &[], &["^a"])).unwrap();
    assert!(!f.path_passes(&path("a.py")));
    assert!(f.path_passes(&path("b/a.py")));
    let g = CompiledFilter::build(&config(&[], &[], &[], &["vendor/"])).unwrap();
    assert!(!g.path_passes(&path("vendor/lib.rs")));
    assert!(g.path_passes(&path("src/lib.rs")));
}

#[test]
fn include_path_regex_must_match_when_given() {
    let f = CompiledFilter::build(&config(&[], &[], &["^src/"], &[])).unwrap();
    assert!(f.path_passes(&path("src/lib.rs")));
    assert!(!f.path_passes(&path("tests/lib.rs")));
}

#[test]
fn exclude_path_wins_over_include_path() {
    let f = CompiledFilter::build(&config(&[], &[], &["\\.rs$"], &["^src/"])).unwrap();
    assert!(!f.path_passes(&path("src/lib.rs")));
    assert!(f.path_passes(&path("tests/lib.rs")));
}

#[test]
fn include_and_exclude_ext_together() {
    // `--include-ext py --exclude-ext pyc` on x.py, x.pyc, x.txt keeps x.py only.
    let f = CompiledFilter::build(&config(&["py"], &["pyc"], &[], &[])).unwrap();
    assert!(f.path_passes(&path("x.py")));
    assert!(!f.path_passes(&path("x.pyc")));
    assert!(!f.path_passes(&path("x.txt")));
}

#[test]
fn malformed_include_pattern_is_reported() {
    let r = CompiledFilter::build(&config(&[], &[], &["("], &[]));
    match r {
        Err(FilterError::InvalidIncludePattern { pattern }) => assert_eq!(pattern, "("),
        _ => panic!("expected an invalid include pattern error"),
    }
}

#[test]
fn malformed_exclude_pattern_is_reported() {
    let r = CompiledFilter::build(&config(&[], &[], &[], &["("]));
    match r {
        Err(FilterError::InvalidExcludePattern { pattern }) => {
            assert_eq!(pattern, "(");
            let e = FilterError::InvalidExcludePattern { pattern };
            assert_eq!(e.message(), "invalid regular expression (exclude-path): (");
        }
        _ => panic!("expected an invalid exclude pattern error"),
    }
}

#[test]
fn include_list_checked_before_exclude_list() {
    let r = CompiledFilter::build(&config(&[], &[], &["["], &["("]));
    match r {
        Err(FilterError::InvalidIncludePattern { pattern }) => assert_eq!(pattern, "["),
        _ => panic!("expected the include list's error first"),
    }
}

#[test]
fn extension_of_matches_std_reading() {
    assert_eq!(dircontext::filter::extension_of("a.py"), Some("py".to_string()));
    assert_eq!(dircontext::filter::extension_of("archive.tar.gz"), Some("gz".to_string()));
    assert_eq!(dircontext::filter::extension_of(".gitignore"), None);
    assert_eq!(dircontext::filter::extension_of("noext"), None);
    assert_eq!(dircontext::filter::extension_of("trailing."), Some(String::new()));
    assert_eq!(dircontext::filter::extension_of(""), None);
}
