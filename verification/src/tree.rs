//! The directory tree: a trie over path components, rendered as ASCII art.
//!
//! A sorted path list is folded into a forest of named nodes whose children
//! stand in name order; sharing of prefixes falls out of insertion. The
//! drawing itself is delegated to the `ascii_tree` crate behind a trusted
//! wrapper; everything up to that call is verified, so the rendered text is
//! a function of the selected path set alone.

use vstd::prelude::*;
use crate::paths::{str_lt, str_compare, CmpResult};

verus! {

broadcast use crate::paths::lemma_vec_deep_view_index, crate::paths::lemma_vec_deep_view_len;

/// One node of the displayed tree: a name and ordered children. A file is
/// a node without children; a directory carries its entries.
pub struct TreeNode {
    pub name: String,
    pub children: Vec<TreeNode>,
}

/// The mathematical value of a node.
#[verifier::ext_equal]
pub struct TreeView {
    pub name: Seq<char>,
    pub children: Seq<TreeView>,
}

/// The value of a node: its name and its children's values.
pub open spec fn node_view(n: TreeNode) -> TreeView
    decreases n,
{
    TreeView {
        name: n.name@,
        children: Seq::new(
            n.children@.len(),
            |i: int|
                if 0 <= i < n.children@.len() {
                    node_view(n.children@[i])
                } else {
                    TreeView { name: Seq::empty(), children: Seq::empty() }
                },
        ),
    }
}

/// The values of a list of nodes.
pub open spec fn forest_view(s: Seq<TreeNode>) -> Seq<TreeView> {
    Seq::new(s.len(), |i: int| node_view(s[i]))
}

/// A chain of single-child nodes spelling out one path.
pub open spec fn chain_of(p: Seq<Seq<char>>) -> TreeView
    decreases p.len(),
{
    if p.len() <= 1 {
        TreeView {
            name: if p.len() == 1 {
                p[0]
            } else {
                Seq::empty()
            },
            children: Seq::empty(),
        }
    } else {
        TreeView { name: p[0], children: seq![chain_of(p.skip(1))] }
    }
}

/// Inserts one path into a name-ordered forest, keeping the order: the
/// component either joins an existing node of the same name or founds a new
/// chain at its ordered position.
pub open spec fn forest_insert(f: Seq<TreeView>, p: Seq<Seq<char>>) -> Seq<TreeView>
    decreases p.len(), f.len(),
{
    if p.len() == 0 {
        f
    } else if f.len() == 0 {
        seq![chain_of(p)]
    } else if p[0] == f[0].name {
        seq![TreeView { name: f[0].name, children: forest_insert(f[0].children, p.skip(1)) }]
            + f.skip(1)
    } else if str_lt(p[0], f[0].name) {
        seq![chain_of(p)] + f
    } else {
        seq![f[0]] + forest_insert(f.skip(1), p)
    }
}

/// The forest a path list folds into, one insertion per path.
pub open spec fn forest_of(paths: Seq<Seq<Seq<char>>>) -> Seq<TreeView>
    decreases paths.len(),
{
    if paths.len() == 0 {
        Seq::empty()
    } else {
        forest_insert(forest_of(paths.drop_last()), paths.last())
    }
}

/// Builds the chain of nodes for the path components from `d` on.
fn chain_node(p: &Vec<String>, d: usize) -> (r: TreeNode)
    requires
        d < p.len(),
    ensures
        node_view(r) == chain_of(p.deep_view().skip(d as int)),
    decreases p.len() - d,
{
    let ghost s = p.deep_view().skip(d as int);
    let name = p[d].clone();
    let mut children: Vec<TreeNode> = Vec::new();
    if d + 1 < p.len() {
        children.push(chain_node(p, d + 1));
        proof {
            assert(s.skip(1) =~= p.deep_view().skip(d + 1));
        }
    }
    let r = TreeNode { name, children };
    proof {
        assert(s[0] == p.deep_view()[d as int]);
        if d + 1 < p.len() {
            assert(node_view(r).children =~= seq![chain_of(s.skip(1))]);
        } else {
            assert(node_view(r).children =~= Seq::<TreeView>::empty());
        }
        assert(node_view(r) =~= chain_of(s));
    }
    r
}

/// Moves every node of `src` to the end of `dst`.
fn append_nodes(dst: &mut Vec<TreeNode>, src: Vec<TreeNode>)
    ensures
        forest_view(final(dst)@) =~= forest_view(old(dst)@) + forest_view(src@),
{
    let mut src = src;
    let ghost d0 = dst@;
    let ghost s0 = src@;
    dst.append(&mut src);
    proof {
        assert(dst@ == d0 + s0);
        assert forall|i: int| 0 <= i < dst@.len() implies forest_view(dst@)[i] == (forest_view(d0)
            + forest_view(s0))[i] by {
            if i < d0.len() {
                assert(dst@[i] == d0[i]);
            } else {
                assert(dst@[i] == s0[i - d0.len()]);
            }
        }
    }
}

/// Inserts the components of `p` from position `d` on into the forest.
fn forest_insert_exec(f: Vec<TreeNode>, p: &Vec<String>, d: usize) -> (r: Vec<TreeNode>)
    requires
        d < p.len(),
    ensures
        forest_view(r@) == forest_insert(forest_view(f@), p.deep_view().skip(d as int)),
    decreases p.len() - d, f.len(),
{
    let ghost f0 = forest_view(f@);
    let ghost s = p.deep_view().skip(d as int);
    proof {
        assert(s.len() > 0);
        assert(s[0] == p.deep_view()[d as int]);
    }
    let mut f = f;
    if f.len() == 0 {
        let mut out: Vec<TreeNode> = Vec::new();
        out.push(chain_node(p, d));
        proof {
            assert(forest_view(out@) =~= seq![chain_of(s)]);
        }
        return out;
    }
    proof {
        assert(f0[0] == node_view(f@[0]));
    }
    match str_compare(p[d].as_str(), f[0].name.as_str()) {
        CmpResult::Eq => {
            let ghost forig = f@;
            let head = f.remove(0);
            let ghost tail0 = f@;
            proof {
                assert(tail0 =~= forig.skip(1));
            }
            let TreeNode { name, children } = head;
            let new_children: Vec<TreeNode> = if d + 1 < p.len() {
                proof {
                    assert(s.skip(1) =~= p.deep_view().skip(d + 1));
                }
                forest_insert_exec(children, p, d + 1)
            } else {
                proof {
                    assert(s.skip(1) =~= Seq::<Seq<char>>::empty());
                    assert(forest_insert(forest_view(children@), s.skip(1)) == forest_view(
                        children@,
                    ));
                }
                children
            };
            let new_head = TreeNode { name, children: new_children };
            proof {
                assert(node_view(new_head).children =~= forest_view(new_children@));
                assert(f0[0].children =~= forest_view(head.children@));
                assert(node_view(new_head) =~= (TreeView {
                    name: f0[0].name,
                    children: forest_insert(f0[0].children, s.skip(1)),
                }));
            }
            let mut out: Vec<TreeNode> = Vec::new();
            out.push(new_head);
            append_nodes(&mut out, f);
            proof {
                assert(forest_view(tail0) =~= f0.skip(1));
                assert(forest_view(out@) =~= seq![
                    TreeView {
                        name: f0[0].name,
                        children: forest_insert(f0[0].children, s.skip(1)),
                    },
                ] + f0.skip(1));
            }
            out
        },
        CmpResult::Lt => {
            let mut out: Vec<TreeNode> = Vec::new();
            out.push(chain_node(p, d));
            append_nodes(&mut out, f);
            proof {
                assert(forest_view(out@) =~= seq![chain_of(s)] + f0);
            }
            out
        },
        CmpResult::Gt => {
            let ghost forig = f@;
            let head = f.remove(0);
            let ghost tail0 = f@;
            proof {
                assert(tail0 =~= forig.skip(1));
            }
            let rest = forest_insert_exec(f, p, d);
            proof {
                assert(forest_view(tail0) =~= f0.skip(1));
            }
            let mut out: Vec<TreeNode> = Vec::new();
            out.push(head);
            append_nodes(&mut out, rest);
            proof {
                assert(forest_view(out@) =~= seq![f0[0]] + forest_insert(f0.skip(1), s));
            }
            out
        },
    }
}

/// Folds the given paths into a forest, one insertion per path; an empty
/// component list inserts nothing.
pub fn build_forest(paths: &Vec<Vec<String>>) -> (r: Vec<TreeNode>)
    ensures
        forest_view(r@) == forest_of(paths.deep_view()),
{
    let ghost dv = paths.deep_view();
    let mut out: Vec<TreeNode> = Vec::new();
    let mut i: usize = 0;
    proof {
        assert(dv.take(0) =~= Seq::<Seq<Seq<char>>>::empty());
        assert(forest_view(out@) =~= forest_of(dv.take(0)));
    }
    while i < paths.len()
        invariant
            i <= paths.len(),
            dv == paths.deep_view(),
            dv.len() == paths.len(),
            forest_view(out@) == forest_of(dv.take(i as int)),
        decreases paths.len() - i,
    {
        proof {
            assert(dv.take(i + 1).drop_last() =~= dv.take(i as int));
            assert(dv.take(i + 1).last() == dv[i as int]);
        }
        if paths[i].len() > 0 {
            proof {
                assert(dv[i as int].skip(0) =~= dv[i as int]);
            }
            out = forest_insert_exec(out, &paths[i], 0);
        } else {
            proof {
                assert(dv[i as int].len() == 0);
                assert(forest_insert(forest_view(out@), dv[i as int]) == forest_view(out@));
            }
        }
        i += 1;
    }
    proof {
        assert(dv.take(dv.len() as int) =~= dv);
    }
    out
}


#[verifier::external_type_specification]
#[verifier::external_body]
pub struct ExAsciiTree(ascii_tree::Tree);

/// Relies on `ascii_tree::Tree::Node`: mirrors a node and its children one
/// for one into the drawing crate's tree type. Only [`render_forest`] uses
/// the converted value, so no contract is stated here; the drawing's whole
/// contract stands on that wrapper.
#[verifier::external_body]
fn to_ascii_tree(n: &TreeNode) -> ascii_tree::Tree {
    ascii_tree::Tree::Node(n.name.clone(), n.children.iter().map(to_ascii_tree).collect())
}

/// What `ascii_tree::write_tree` draws for a root of the given name over
/// the given forest.
pub uninterp spec fn rendered_tree(root: Seq<char>, forest: Seq<TreeView>) -> Seq<char>;

/// Relies on `ascii_tree::write_tree`: the drawing depends on the tree
/// alone. Writing into a `String` cannot fail, so the error arm is dead; it
/// mirrors the drawing crate's own error text all the same.
#[verifier::external_body]
fn render_forest(root: &str, forest: &Vec<TreeNode>) -> (r: String)
    ensures
        r@ == rendered_tree(root@, forest_view(forest@)),
{
    let children: Vec<ascii_tree::Tree> = forest.iter().map(to_ascii_tree).collect();
    let tree = ascii_tree::Tree::Node(root.to_string(), children);
    let mut buf = String::new();
    match ascii_tree::write_tree(&mut buf, &tree) {
        Ok(()) => buf,
        Err(e) => format!("(tree rendering error: {})", e),
    }
}

/// The tree section of the output: the drawn tree under a root named `.`,
/// or a fixed placeholder when no file is to be shown.
pub open spec fn spec_tree_text(paths: Seq<Seq<Seq<char>>>) -> Seq<char> {
    if paths.len() == 0 {
        "(no matching files were found)"@
    } else {
        rendered_tree("."@, forest_of(paths))
    }
}

/// Renders the directory tree of the given sorted path list.
pub fn tree_text(paths: &Vec<Vec<String>>) -> (r: String)
    ensures
        r@ == spec_tree_text(paths.deep_view()),
{
    if paths.len() == 0 {
        "(no matching files were found)".to_owned()
    } else {
        let forest = build_forest(paths);
        render_forest(".", &forest)
    }
}

/// The drawn tree is determined by the set of paths the walk found: two
/// selections over inputs with the same membership draw the same text,
/// whatever order either walk produced.
pub proof fn lemma_tree_text_order_independent(
    out1: Seq<Seq<Seq<char>>>,
    out2: Seq<Seq<Seq<char>>>,
    in1: Seq<Seq<Seq<char>>>,
    in2: Seq<Seq<Seq<char>>>,
    fv: crate::filter::FilterView,
    apply_filters: bool,
    gitignore_present: bool,
)
    requires
        crate::paths::sorted_strict(out1),
        crate::paths::sorted_strict(out2),
        crate::select::selected(out1, in1, fv, apply_filters, gitignore_present),
        crate::select::selected(out2, in2, fv, apply_filters, gitignore_present),
        forall|q: Seq<Seq<char>>| in1.contains(q) <==> in2.contains(q),
    ensures
        out1 == out2,
        spec_tree_text(out1) == spec_tree_text(out2),
{
    crate::select::lemma_selection_order_independent(
        out1,
        out2,
        in1,
        in2,
        fv,
        apply_filters,
        gitignore_present,
    );
}

} // verus!
