//! File contents: head-line truncation and fenced content blocks.
//!
//! Each selected file's lines arrive from the caller, already read and
//! split; the budgeted prefix is joined back with newlines and wrapped in a
//! fence labeled with the file's relative path. A file whose read failed
//! contributes an inline error marker instead, and never stops the rest.

use vstd::prelude::*;
use vstd::string::StrSliceExecFns;
use vstd::string::StringExecFns;
use crate::paths::{joined, join_path};

verus! {

broadcast use crate::paths::lemma_vec_deep_view_index, crate::paths::lemma_vec_deep_view_len;

/// The given lines, each closed with a newline, in order.
pub open spec fn lines_text(ls: Seq<Seq<char>>) -> Seq<char>
    decreases ls.len(),
{
    if ls.len() == 0 {
        Seq::empty()
    } else {
        ls[0] + "\n"@ + lines_text(ls.skip(1))
    }
}

/// How many lines a budget of `n` takes from `len` lines: all of them when
/// the budget is zero or generous, otherwise `n`.
pub open spec fn head_count(n: int, len: int) -> int {
    if n == 0 || n > len {
        len
    } else {
        n
    }
}

/// The head of a file under a line budget: the first [`head_count`] lines.
pub open spec fn spec_head_text(ls: Seq<Seq<char>>, n: int) -> Seq<char> {
    lines_text(ls.take(head_count(n, ls.len() as int)))
}

proof fn lemma_lines_text_push(ls: Seq<Seq<char>>, x: Seq<char>)
    ensures
        lines_text(ls.push(x)) == lines_text(ls) + x + "\n"@,
    decreases ls.len(),
{
    let q = ls.push(x);
    if ls.len() == 0 {
        assert(q[0] == x);
        assert(q.skip(1) =~= Seq::<Seq<char>>::empty());
        assert(lines_text(Seq::<Seq<char>>::empty()) =~= Seq::<char>::empty());
        assert(lines_text(q) =~= x + "\n"@);
        assert(lines_text(ls) + x + "\n"@ =~= x + "\n"@);
    } else {
        assert(q.skip(1) =~= ls.skip(1).push(x));
        lemma_lines_text_push(ls.skip(1), x);
        assert(q[0] == ls[0]);
        assert(lines_text(q) == ls[0] + "\n"@ + (lines_text(ls.skip(1)) + x + "\n"@));
        assert(lines_text(ls) + x + "\n"@ =~= ls[0] + "\n"@ + (lines_text(ls.skip(1)) + x
            + "\n"@));
    }
}

/// Joins the first `n` lines (all of them when `n` is zero), each closed
/// with a newline.
pub fn head_text(lines: &Vec<String>, n: usize) -> (r: String)
    ensures
        r@ == spec_head_text(lines.deep_view(), n as int),
{
    let ghost dv = lines.deep_view();
    let limit: usize = if n == 0 || n > lines.len() {
        lines.len()
    } else {
        n
    };
    proof {
        assert(limit as int == head_count(n as int, dv.len() as int));
    }
    let mut r = String::new();
    let mut i: usize = 0;
    proof {
        assert(dv.take(0) =~= Seq::<Seq<char>>::empty());
    }
    while i < limit
        invariant
            i <= limit,
            limit <= lines.len(),
            dv == lines.deep_view(),
            dv.len() == lines.len(),
            r@ == lines_text(dv.take(i as int)),
        decreases limit - i,
    {
        r.append(lines[i].as_str());
        r.append("\n");
        proof {
            assert(dv.take(i + 1) =~= dv.take(i as int).push(dv[i as int]));
            lemma_lines_text_push(dv.take(i as int), dv[i as int]);
        }
        i += 1;
    }
    proof {
        assert(dv.take(limit as int) =~= dv.take(head_count(n as int, dv.len() as int)));
    }
    r
}

/// Head-line truncation: a budget of zero yields every line of the file; a
/// positive budget yields exactly the first `min(n, len)` lines — never
/// more than `n`, and with nothing appended beyond the lines themselves.
pub proof fn lemma_head_text_truncation(ls: Seq<Seq<char>>, n: int)
    requires
        n >= 0,
    ensures
        n == 0 ==> spec_head_text(ls, n) == lines_text(ls),
        spec_head_text(ls, n) == lines_text(ls.take(head_count(n, ls.len() as int))),
        n > 0 ==> head_count(n, ls.len() as int) <= n,
        head_count(n, ls.len() as int) <= ls.len(),
{
    if n == 0 {
        assert(ls.take(ls.len() as int) =~= ls);
    }
}

/// One selected file as the caller read it: its path relative to the root,
/// and either its lines or the text of the error that reading it gave.
pub struct FileRead {
    pub path: Vec<String>,
    pub lines: Result<Vec<String>, String>,
}

/// The body of a file's block: its budgeted head, or the inline marker of
/// its read error.
pub open spec fn body_of(f: FileRead, n: int) -> Seq<char> {
    match f.lines {
        Ok(ls) => spec_head_text(ls.deep_view(), n),
        Err(m) => "(read error: "@ + m@ + ")\n"@,
    }
}

/// One content block: a fence opened with the file's relative path as its
/// label, the body, and the closing fence.
pub open spec fn block_of(path: Seq<Seq<char>>, body: Seq<char>) -> Seq<char> {
    "\n```"@ + joined(path) + "\n"@ + body + "```\n"@
}

/// The concatenated blocks of all files, in the given order.
pub open spec fn blocks_text(files: Seq<FileRead>, n: int) -> Seq<char>
    decreases files.len(),
{
    if files.len() == 0 {
        Seq::empty()
    } else {
        block_of(files[0].path.deep_view(), body_of(files[0], n)) + blocks_text(
            files.skip(1),
            n,
        )
    }
}

/// The content section: all blocks, with the one trailing newline removed.
/// Every block ends with its closing fence, so that newline is the only
/// trailing whitespace the section can have.
pub open spec fn spec_content_blocks(files: Seq<FileRead>, n: int) -> Seq<char> {
    if files.len() == 0 {
        Seq::empty()
    } else {
        blocks_text(files, n).drop_last()
    }
}

proof fn lemma_blocks_text_push(fs: Seq<FileRead>, f: FileRead, n: int)
    ensures
        blocks_text(fs.push(f), n) == blocks_text(fs, n) + block_of(
            f.path.deep_view(),
            body_of(f, n),
        ),
    decreases fs.len(),
{
    let q = fs.push(f);
    if fs.len() == 0 {
        assert(q[0] == f);
        assert(q.skip(1) =~= Seq::<FileRead>::empty());
        assert(blocks_text(Seq::<FileRead>::empty(), n) =~= Seq::<char>::empty());
        assert(blocks_text(q, n) =~= block_of(f.path.deep_view(), body_of(f, n)));
        assert(blocks_text(fs, n) + block_of(f.path.deep_view(), body_of(f, n)) =~= block_of(
            f.path.deep_view(),
            body_of(f, n),
        ));
    } else {
        assert(q.skip(1) =~= fs.skip(1).push(f));
        lemma_blocks_text_push(fs.skip(1), f, n);
        assert(q[0] == fs[0]);
        assert(blocks_text(fs, n) + block_of(f.path.deep_view(), body_of(f, n)) =~= block_of(
            fs[0].path.deep_view(),
            body_of(fs[0], n),
        ) + (blocks_text(fs.skip(1), n) + block_of(f.path.deep_view(), body_of(f, n))));
    }
}

proof fn lemma_blocks_text_ends_newline(files: Seq<FileRead>, n: int)
    requires
        files.len() > 0,
    ensures
        blocks_text(files, n).len() > 0,
        blocks_text(files, n).last() == '\n',
    decreases files.len(),
{
    reveal_strlit("```\n");
    reveal_strlit("\n```");
    reveal_strlit("\n");
    reveal_strlit("(read error: ");
    reveal_strlit(")\n");
    if files.len() == 1 {
        assert(files.skip(1) =~= Seq::<FileRead>::empty());
        assert(blocks_text(files.skip(1), n) =~= Seq::<char>::empty());
        let b = block_of(files[0].path.deep_view(), body_of(files[0], n));
        assert("```\n"@.len() == 4);
        assert("```\n"@[3] == '\n');
        assert(b.len() > 0);
        assert(b.last() == '\n');
        assert(blocks_text(files, n) =~= b);
    } else {
        lemma_blocks_text_ends_newline(files.skip(1), n);
        assert(blocks_text(files, n).last() == blocks_text(files.skip(1), n).last());
    }
}

/// Assembles the content blocks of all selected files under the given line
/// budget, in the given order.
pub fn content_blocks(files: &Vec<FileRead>, n: usize) -> (r: String)
    ensures
        r@ == spec_content_blocks(files@, n as int),
{
    let mut r = String::new();
    let mut i: usize = 0;
    proof {
        assert(files@.take(0) =~= Seq::<FileRead>::empty());
    }
    while i < files.len()
        invariant
            i <= files.len(),
            r@ == blocks_text(files@.take(i as int), n as int),
        decreases files.len() - i,
    {
        let body: String = match &files[i].lines {
            Ok(ls) => head_text(ls, n),
            Err(m) => {
                let mut b = String::new();
                b.append("(read error: ");
                b.append(m.as_str());
                b.append(")\n");
                b
            },
        };
        r.append("\n```");
        r.append(join_path(&files[i].path).as_str());
        r.append("\n");
        r.append(body.as_str());
        r.append("```\n");
        proof {
            assert(files@.take(i + 1) =~= files@.take(i as int).push(files@[i as int]));
            lemma_blocks_text_push(files@.take(i as int), files@[i as int], n as int);
        }
        i += 1;
    }
    proof {
        assert(files@.take(files.len() as int) =~= files@);
    }
    if files.len() > 0 {
        proof {
            lemma_blocks_text_ends_newline(files@, n as int);
        }
        let l = r.as_str().unicode_len();
        let t = r.as_str().substring_char(0, l - 1).to_owned();
        proof {
            assert(t@ =~= r@.drop_last());
        }
        return t;
    }
    r
}

/// The labels the blocks carry, in order: each file's relative path.
pub open spec fn labels_of(files: Seq<FileRead>) -> Seq<Seq<char>> {
    Seq::new(files.len(), |i: int| joined(files[i].path.deep_view()))
}

/// Round trip of the labels: when the files stand in the order of the
/// selected content set, the sequence of block labels is exactly that
/// sorted relative-path list, joined path by path.
pub proof fn lemma_labels_are_selection(files: Seq<FileRead>, sel: Seq<Seq<Seq<char>>>)
    requires
        files.len() == sel.len(),
        forall|i: int| 0 <= i < files.len() ==> #[trigger] files[i].path.deep_view() == sel[i],
    ensures
        labels_of(files) =~= Seq::new(sel.len(), |i: int| joined(sel[i])),
{
}

} // verus!
