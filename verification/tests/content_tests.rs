use dircontext::content::{content_blocks, head_text, FileRead};

fn path(s: &str) -> Vec<String> {
    s.split('/').map(|c| c.to_string()).collect()
}

fn lines(items: &[&str]) -> Vec<String> {
    items.iter().map(|s| s.to_string()).collect()
}

#[test]
fn head_zero_keeps_every_line() {
    let ls = lines(&["one", "two", "three"]);
    assert_eq!(head_text(&ls, 0), "one\ntwo\nthree\n");
}

#[test]
fn head_limit_truncates_without_marker() {
    let ls = lines(&["one", "two", "three"]);
    assert_eq!(head_text(&ls, 2), "one\ntwo\n");
    assert_eq!(head_text(&ls, 1), "one\n");
}

#[test]
fn head_limit_beyond_length_keeps_all() {
    let ls = lines(&["one", "two"]);
    assert_eq!(head_text(&ls, 200), "one\ntwo\n");
}

#[test]
fn head_of_empty_file_is_empty() {
    let ls: Vec<String> = vec![];
    assert_eq!(head_text(&ls, 0), "");
    assert_eq!(head_text(&ls, 3), "");
}

#[test]
fn blocks_label_each_file_with_its_relative_path() {
    let files = vec![
        FileRead { path: path(".gitignore"), lines: Ok(lines(&["b/"])) },
        FileRead { path: path("a.py"), lines: Ok(lines(&["l1", "l2"])) },
    ];
    let out = content_blocks(&files, 0);
    assert_eq!(out, "\n```.gitignore\nb/\n```\n\n```a.py\nl1\nl2\n```");
}

#[test]
fn block_labels_recover_the_path_list() {
    let files = vec![
        FileRead { path: path("a.py"), lines: Ok(lines(&["x"])) },
        FileRead { path: path("b/c.txt"), lines: Ok(lines(&["y"])) },
    ];
    let out = content_blocks(&files, 0);
    let labels: Vec<&str> = out
        .split("\n```")
        .map(|block| block.split('\n').next().unwrap())
        .filter(|label| !label.is_empty())
        .collect();
    assert_eq!(labels, vec!["a.py", "b/c.txt"]);
}

#[test]
fn unreadable_file_gets_inline_marker_only() {
    let files = vec![
        FileRead { path: path("bad.bin"), lines: Err("stream did not contain valid UTF-8".to_string()) },
        FileRead { path: path("good.txt"), lines: Ok(lines(&["fine"])) },
    ];
    let out = content_blocks(&files, 0);
    assert_eq!(
        out,
        "\n```bad.bin\n(read error: stream did not contain valid UTF-8)\n```\n\n```good.txt\nfine\n```"
    );
}

#[test]
fn blocks_apply_the_line_budget() {
    let files = vec![FileRead { path: path("a.txt"), lines: Ok(lines(&["1", "2", "3"])) }];
    assert_eq!(content_blocks(&files, 2), "\n```a.txt\n1\n2\n```");
}

#[test]
fn no_files_give_empty_content() {
    let files: Vec<FileRead> = vec![];
    assert_eq!(content_blocks(&files, 0), "");
}
