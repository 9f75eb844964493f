use dircontext::filter::FilterConfig;
use dircontext::output::{dec_string, options_text, render_list, render_output};

fn strings(items: &[&str]) -> Vec<String> {
    items.iter().map(|s| s.to_string()).collect()
}

fn config(
    include_ext: &[&str],
    exclude_ext: &[&str],
    include_path: &[&str],
    exclude_path: &[&str],
    include_gitignore: bool,
    filter_tree: bool,
) -> FilterConfig {
    FilterConfig {
        include_ext: strings(include_ext),
        exclude_ext: strings(exclude_ext),
        include_path: strings(include_path),
        exclude_path: strings(exclude_path),
        filter_tree,
        include_gitignore,
    }
}

#[test]
fn decimal_rendering_is_exact() {
    assert_eq!(dec_string(0), "0");
    assert_eq!(dec_string(7), "7");
    assert_eq!(dec_string(10), "10");
    assert_eq!(dec_string(200), "200");
    assert_eq!(dec_string(90210), "90210");
}

#[test]
fn list_rendering_quotes_and_separates() {
    assert_eq!(render_list(&strings(&[])), "[]");
    assert_eq!(render_list(&strings(&["py"])), "[\"py\"]");
    assert_eq!(render_list(&strings(&["py", "rs"])), "[\"py\", \"rs\"]");
}

#[test]
fn option_summary_shows_lists_only_when_given() {
    let c = config(&["py"], &[], &[], &["^target/"], false, true);
    let t = options_text(&c);
    assert_eq!(
        t,
        " - include extensions: [\"py\"]\n - exclude paths (regex): [\"^target/\"]\n - gitignored files included: no\n - filters applied to tree display: yes\n"
    );
}

#[test]
fn output_without_query_has_no_question_block() {
    let c = config(&[], &[], &[], &[], false, false);
    let out = render_output(
        &c,
        &"/tmp/root".to_string(),
        &None,
        &"Answer from the context.".to_string(),
        200,
        &"(no matching files were found)".to_string(),
        &"".to_string(),
    );
    let expected = "\n**Context information**\n\nRoot path: /tmp/root\nFile structure:\n(no matching files were found)\n\nFiltering options:\n - gitignored files included: no\n - filters applied to tree display: no\n\nFirst 200 lines of each file:\n(no matching files were found, or none could be read)\n";
    assert_eq!(out, expected);
}

#[test]
fn output_with_query_opens_with_the_question() {
    let c = config(&[], &[], &[], &[], true, false);
    let out = render_output(
        &c,
        &"/r".to_string(),
        &Some("what is this?".to_string()),
        &"You are an engineer.".to_string(),
        0,
        &" .\n └─ a.py\n".to_string(),
        &"\n```a.py\nx\n```".to_string(),
    );
    assert!(out.starts_with("You are an engineer.\n\n---\n\nQuestion: what is this?\n\n---\n"));
    assert!(out.contains("\nFull content of each file:\n"));
    assert!(out.contains("\n```a.py\nx\n```\n"));
    assert!(out.contains(" - gitignored files included: yes\n"));
}
