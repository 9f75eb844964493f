//! The final document: the context header, the drawn tree, the filter
//! option summary, and the content section, with an optional question block
//! in front, assembled by plain string building.

use vstd::prelude::*;
use vstd::string::StrSliceExecFns;
use vstd::string::StringExecFns;
use crate::filter::FilterConfig;

verus! {

broadcast use crate::paths::lemma_vec_deep_view_index, crate::paths::lemma_vec_deep_view_len;

/// The digit character of one decimal digit.
pub open spec fn digit_char(d: int) -> char {
    if d == 0 {
        '0'
    } else if d == 1 {
        '1'
    } else if d == 2 {
        '2'
    } else if d == 3 {
        '3'
    } else if d == 4 {
        '4'
    } else if d == 5 {
        '5'
    } else if d == 6 {
        '6'
    } else if d == 7 {
        '7'
    } else if d == 8 {
        '8'
    } else {
        '9'
    }
}

/// The decimal digits of a number, most significant first.
pub open spec fn spec_dec(n: int) -> Seq<char>
    decreases n,
{
    if n < 10 {
        seq![digit_char(n)]
    } else {
        spec_dec(n / 10) + seq![digit_char(n % 10)]
    }
}

fn digit_str(d: usize) -> (r: &'static str)
    requires
        d < 10,
    ensures
        r@ == seq![digit_char(d as int)],
{
    let r = if d == 0 {
        "0"
    } else if d == 1 {
        "1"
    } else if d == 2 {
        "2"
    } else if d == 3 {
        "3"
    } else if d == 4 {
        "4"
    } else if d == 5 {
        "5"
    } else if d == 6 {
        "6"
    } else if d == 7 {
        "7"
    } else if d == 8 {
        "8"
    } else {
        "9"
    };
    proof {
        reveal_strlit("0");
        reveal_strlit("1");
        reveal_strlit("2");
        reveal_strlit("3");
        reveal_strlit("4");
        reveal_strlit("5");
        reveal_strlit("6");
        reveal_strlit("7");
        reveal_strlit("8");
        reveal_strlit("9");
        assert(r@ =~= seq![digit_char(d as int)]);
    }
    r
}

/// Renders a number in decimal.
pub fn dec_string(n: usize) -> (r: String)
    ensures
        r@ == spec_dec(n as int),
    decreases n,
{
    if n < 10 {
        digit_str(n).to_owned()
    } else {
        let mut s = dec_string(n / 10);
        s.append(digit_str(n % 10));
        s
    }
}

/// One quoted list entry.
pub open spec fn quoted(s: Seq<char>) -> Seq<char> {
    "\""@ + s + "\""@
}

/// The entries of a list, quoted and comma-separated.
pub open spec fn spec_list_items(items: Seq<Seq<char>>) -> Seq<char>
    decreases items.len(),
{
    if items.len() == 0 {
        Seq::empty()
    } else if items.len() == 1 {
        quoted(items[0])
    } else {
        quoted(items[0]) + ", "@ + spec_list_items(items.skip(1))
    }
}

/// A serialized list: the quoted entries between brackets.
pub open spec fn spec_list(items: Seq<Seq<char>>) -> Seq<char> {
    "["@ + spec_list_items(items) + "]"@
}

proof fn lemma_list_items_push(items: Seq<Seq<char>>, x: Seq<char>)
    ensures
        spec_list_items(items.push(x)) == if items.len() == 0 {
            quoted(x)
        } else {
            spec_list_items(items) + ", "@ + quoted(x)
        },
    decreases items.len(),
{
    let q = items.push(x);
    if items.len() == 0 {
        assert(q[0] == x);
    } else if items.len() == 1 {
        assert(q.skip(1) =~= seq![x]);
        assert(spec_list_items(q.skip(1)) == quoted(x));
        assert(q[0] == items[0]);
        assert(spec_list_items(items) + ", "@ + quoted(x) =~= quoted(q[0]) + ", "@
            + spec_list_items(q.skip(1)));
    } else {
        assert(q.skip(1) =~= items.skip(1).push(x));
        lemma_list_items_push(items.skip(1), x);
        assert(q[0] == items[0]);
        assert(spec_list_items(items) + ", "@ + quoted(x) =~= quoted(q[0]) + ", "@ + (
        spec_list_items(items.skip(1)) + ", "@ + quoted(x)));
    }
}

/// Serializes a list of strings for the option summary.
pub fn render_list(items: &Vec<String>) -> (r: String)
    ensures
        r@ == spec_list(items.deep_view()),
{
    let ghost dv = items.deep_view();
    let mut r = String::new();
    r.append("[");
    let mut i: usize = 0;
    proof {
        assert(dv.take(0) =~= Seq::<Seq<char>>::empty());
        assert(r@ =~= "["@ + spec_list_items(dv.take(0)));
    }
    while i < items.len()
        invariant
            i <= items.len(),
            dv == items.deep_view(),
            dv.len() == items.len(),
            r@ == "["@ + spec_list_items(dv.take(i as int)),
        decreases items.len() - i,
    {
        if i > 0 {
            r.append(", ");
        }
        r.append("\"");
        r.append(items[i].as_str());
        r.append("\"");
        proof {
            assert(dv.take(i + 1) =~= dv.take(i as int).push(dv[i as int]));
            lemma_list_items_push(dv.take(i as int), dv[i as int]);
            assert(r@ =~= "["@ + spec_list_items(dv.take(i + 1)));
        }
        i += 1;
    }
    r.append("]");
    proof {
        assert(dv.take(dv.len() as int) =~= dv);
        assert(r@ =~= spec_list(dv));
    }
    r
}

/// The localized truth values of the option summary.
pub open spec fn yes_no(b: bool) -> Seq<char> {
    if b {
        "yes"@
    } else {
        "no"@
    }
}

/// One list line of the option summary: label and serialized list, shown
/// only when the list has entries.
pub open spec fn spec_list_line(label: Seq<char>, items: Seq<Seq<char>>) -> Seq<char> {
    if items.len() == 0 {
        Seq::empty()
    } else {
        label + spec_list(items) + "\n"@
    }
}

fn list_line(label: &str, items: &Vec<String>) -> (r: String)
    ensures
        r@ == spec_list_line(label@, items.deep_view()),
{
    if items.len() == 0 {
        String::new()
    } else {
        let mut s = label.to_owned();
        s.append(render_list(items).as_str());
        s.append("\n");
        s
    }
}

/// One flag line of the option summary: label and yes/no, always shown.
pub open spec fn spec_flag_line(label: Seq<char>, b: bool) -> Seq<char> {
    label + yes_no(b) + "\n"@
}

fn flag_line(label: &str, b: bool) -> (r: String)
    ensures
        r@ == spec_flag_line(label@, b),
{
    let mut s = label.to_owned();
    if b {
        s.append("yes");
    } else {
        s.append("no");
    }
    s.append("\n");
    s
}

/// The filtering-option summary: the four rule lists, each shown only when
/// given, and the two flags, always shown.
pub open spec fn spec_options_text(cfg: FilterConfig) -> Seq<char> {
    spec_list_line(" - include extensions: "@, cfg.include_ext.deep_view()) + spec_list_line(
        " - exclude extensions: "@,
        cfg.exclude_ext.deep_view(),
    ) + spec_list_line(" - include paths (regex): "@, cfg.include_path.deep_view())
        + spec_list_line(" - exclude paths (regex): "@, cfg.exclude_path.deep_view())
        + spec_flag_line(" - gitignored files included: "@, cfg.include_gitignore)
        + spec_flag_line(" - filters applied to tree display: "@, cfg.filter_tree)
}

/// Renders the filtering-option summary.
pub fn options_text(cfg: &FilterConfig) -> (r: String)
    ensures
        r@ == spec_options_text(*cfg),
{
    let mut s = list_line(" - include extensions: ", &cfg.include_ext);
    s.append(list_line(" - exclude extensions: ", &cfg.exclude_ext).as_str());
    s.append(list_line(" - include paths (regex): ", &cfg.include_path).as_str());
    s.append(list_line(" - exclude paths (regex): ", &cfg.exclude_path).as_str());
    s.append(flag_line(" - gitignored files included: ", cfg.include_gitignore).as_str());
    s.append(flag_line(" - filters applied to tree display: ", cfg.filter_tree).as_str());
    s
}

/// The question block: the system prompt and the question between rules,
/// present exactly when a question was given.
pub open spec fn spec_query_section(query: Option<Seq<char>>, system_prompt: Seq<char>) -> Seq<
    char,
> {
    match query {
        Some(q) => system_prompt + "\n\n---\n\nQuestion: "@ + q + "\n\n---\n"@,
        None => Seq::empty(),
    }
}

fn query_section(query: &Option<String>, system_prompt: &String) -> (r: String)
    ensures
        r@ == spec_query_section(query.deep_view(), system_prompt@),
{
    match query {
        Some(q) => {
            let mut s = system_prompt.clone();
            s.append("\n\n---\n\nQuestion: ");
            s.append(q.as_str());
            s.append("\n\n---\n");
            s
        },
        None => String::new(),
    }
}

/// The heading of the content section: all lines, or the first `n`.
pub open spec fn spec_head_label(head: int) -> Seq<char> {
    if head == 0 {
        "\nFull content of each file:\n"@
    } else {
        "\nFirst "@ + spec_dec(head) + " lines of each file:\n"@
    }
}

fn head_label(head: usize) -> (r: String)
    ensures
        r@ == spec_head_label(head as int),
{
    if head == 0 {
        "\nFull content of each file:\n".to_owned()
    } else {
        let mut s = "\nFirst ".to_owned();
        s.append(dec_string(head).as_str());
        s.append(" lines of each file:\n");
        s
    }
}

/// The content section's text: the blocks, or a placeholder when no file
/// matched or none could be read.
pub open spec fn spec_contents_section(contents: Seq<char>) -> Seq<char> {
    if contents.len() == 0 {
        "(no matching files were found, or none could be read)\n"@
    } else {
        contents + "\n"@
    }
}

fn contents_section(contents: &String) -> (r: String)
    ensures
        r@ == spec_contents_section(contents@),
{
    if contents.as_str().unicode_len() == 0 {
        "(no matching files were found, or none could be read)\n".to_owned()
    } else {
        let mut s = contents.clone();
        s.append("\n");
        s
    }
}

/// The whole output document, assembled from its sections in order.
pub open spec fn spec_render_output(
    cfg: FilterConfig,
    root: Seq<char>,
    query: Option<Seq<char>>,
    system_prompt: Seq<char>,
    head: int,
    tree: Seq<char>,
    contents: Seq<char>,
) -> Seq<char> {
    spec_query_section(query, system_prompt) + "\n**Context information**\n\nRoot path: "@ + root
        + "\nFile structure:\n"@ + tree + "\n\nFiltering options:\n"@ + spec_options_text(cfg)
        + spec_head_label(head) + spec_contents_section(contents)
}

/// Renders the final document.
pub fn render_output(
    cfg: &FilterConfig,
    root: &String,
    query: &Option<String>,
    system_prompt: &String,
    head: usize,
    tree: &String,
    contents: &String,
) -> (r: String)
    ensures
        r@ == spec_render_output(
            *cfg,
            root@,
            query.deep_view(),
            system_prompt@,
            head as int,
            tree@,
            contents@,
        ),
{
    let mut s = query_section(query, system_prompt);
    s.append("\n**Context information**\n\nRoot path: ");
    s.append(root.as_str());
    s.append("\nFile structure:\n");
    s.append(tree.as_str());
    s.append("\n\nFiltering options:\n");
    s.append(options_text(cfg).as_str());
    s.append(head_label(head).as_str());
    s.append(contents_section(contents).as_str());
    s
}

} // verus!
