//! Building the two file sets: tree display and content inclusion.
//!
//! A selection takes the paths a directory walk produced, applies the filter
//! (always for the content set, only on request for the tree set), forces
//! the root's ignore file in, and returns a strictly sorted, duplicate-free
//! list. The output is fixed by the membership of the input alone, not by
//! its order.

use vstd::prelude::*;
use crate::filter::{passes, CompiledFilter, FilterView};
use crate::paths::{
    insert_path, lemma_sorted_unique, path_view, sorted_strict,
};

verus! {

broadcast use crate::paths::lemma_vec_deep_view_index, crate::paths::lemma_vec_deep_view_len;

/// The path of the root's own ignore file, relative to the root.
pub open spec fn gitignore_path() -> Seq<Seq<char>> {
    seq![".gitignore"@]
}

/// Membership of a selection: a path stands in the output exactly when the
/// walk produced it and it passes the filter (where filtering applies), or
/// it is the root's ignore file and that file exists — the ignore file is
/// forced in whatever the filters say.
pub open spec fn selected(
    out: Seq<Seq<Seq<char>>>,
    input: Seq<Seq<Seq<char>>>,
    fv: FilterView,
    apply_filters: bool,
    gitignore_present: bool,
) -> bool {
    forall|q: Seq<Seq<char>>|
        out.contains(q) <==> ((input.contains(q) && (apply_filters ==> passes(fv, q))) || (
        gitignore_present && q == gitignore_path()))
}

/// Selects and sorts the file paths for one of the two output sets.
pub fn select_files(
    filter: &CompiledFilter,
    input: &Vec<Vec<String>>,
    apply_filters: bool,
    gitignore_present: bool,
) -> (r: Vec<Vec<String>>)
    ensures
        sorted_strict(r.deep_view()),
        selected(r.deep_view(), input.deep_view(), filter@, apply_filters, gitignore_present),
{
    let ghost fv = filter@;
    let ghost inp = input.deep_view();
    let mut out: Vec<Vec<String>> = Vec::new();
    if gitignore_present {
        let mut g: Vec<String> = Vec::new();
        g.push(".gitignore".to_owned());
        proof {
            assert(g.deep_view() =~= gitignore_path());
        }
        insert_path(&mut out, g);
    }
    proof {
        assert forall|q: Seq<Seq<char>>| out.deep_view().contains(q) implies (gitignore_present
            && q == gitignore_path()) by {}
        if gitignore_present {
            assert(out.deep_view().contains(gitignore_path()));
        }
    }
    let mut i: usize = 0;
    while i < input.len()
        invariant
            i <= input.len(),
            inp == input.deep_view(),
            inp.len() == input.len(),
            fv == filter@,
            sorted_strict(out.deep_view()),
            forall|q: Seq<Seq<char>>|
                out.deep_view().contains(q) <==> ((exists|k: int|
                    0 <= k < i && #[trigger] inp[k] == q && (apply_filters ==> passes(fv, q)))
                    || (gitignore_present && q == gitignore_path())),
        decreases input.len() - i,
    {
        proof {
            assert(inp[i as int] == path_view(&input@[i as int]));
        }
        let keep = if apply_filters {
            filter.path_passes(&input[i])
        } else {
            true
        };
        if keep {
            let ghost before = out.deep_view();
            insert_path(&mut out, clone_path(&input[i]));
            proof {
                assert forall|q: Seq<Seq<char>>| out.deep_view().contains(q) implies ((exists|
                    k: int,
                |
                    0 <= k < i + 1 && #[trigger] inp[k] == q && (apply_filters ==> passes(
                        fv,
                        q,
                    ))) || (gitignore_present && q == gitignore_path())) by {
                    if !before.contains(q) {
                        assert(q == inp[i as int]);
                    }
                }
            }
        }
        i += 1;
    }
    proof {
        assert forall|q: Seq<Seq<char>>| #[trigger] out.deep_view().contains(q)
            <==> ((inp.contains(q) && (apply_filters ==> passes(fv, q))) || (gitignore_present
            && q == gitignore_path())) by {
            if inp.contains(q) && (apply_filters ==> passes(fv, q)) {
                let k = choose|k: int| 0 <= k < inp.len() && inp[k] == q;
                assert(0 <= k < i && inp[k] == q);
            }
        }
    }
    out
}

/// The root's ignore file, when present, stands in every selection,
/// whatever the filter configuration and whether or not filtering applies.
pub proof fn lemma_gitignore_always_selected(
    out: Seq<Seq<Seq<char>>>,
    input: Seq<Seq<Seq<char>>>,
    fv: FilterView,
    apply_filters: bool,
)
    requires
        selected(out, input, fv, apply_filters, true),
    ensures
        out.contains(gitignore_path()),
{
}

/// A selection is determined by the membership of the walk's output alone:
/// two walks that found the same set of paths, in whatever order, give the
/// same sorted list — and with it the same tree and the same content order.
pub proof fn lemma_selection_order_independent(
    out1: Seq<Seq<Seq<char>>>,
    out2: Seq<Seq<Seq<char>>>,
    in1: Seq<Seq<Seq<char>>>,
    in2: Seq<Seq<Seq<char>>>,
    fv: FilterView,
    apply_filters: bool,
    gitignore_present: bool,
)
    requires
        sorted_strict(out1),
        sorted_strict(out2),
        selected(out1, in1, fv, apply_filters, gitignore_present),
        selected(out2, in2, fv, apply_filters, gitignore_present),
        forall|q: Seq<Seq<char>>| in1.contains(q) <==> in2.contains(q),
    ensures
        out1 == out2,
{
    assert(forall|q: Seq<Seq<char>>| out1.contains(q) <==> out2.contains(q));
    lemma_sorted_unique(out1, out2);
}

/// Copies a path's component list.
fn clone_path(p: &Vec<String>) -> (r: Vec<String>)
    ensures
        r.deep_view() == p.deep_view(),
{
    let mut out: Vec<String> = Vec::new();
    let mut i: usize = 0;
    while i < p.len()
        invariant
            i <= p.len(),
            out.deep_view().len() == i,
            forall|k: int| 0 <= k < i ==> #[trigger] out.deep_view()[k] == p.deep_view()[k],
        decreases p.len() - i,
    {
        let ghost prev = out.deep_view();
        out.push(p[i].clone());
        proof {
            assert forall|k: int| 0 <= k < i + 1 implies #[trigger] out.deep_view()[k]
                == p.deep_view()[k] by {
                if k < i {
                    assert(out.deep_view()[k] == prev[k]);
                } else {
                    assert(out.deep_view()[k] == out@[k]@);
                    assert(p.deep_view()[k] == p@[k]@);
                }
            }
        }
        i += 1;
    }
    proof {
        assert(out.deep_view() =~= p.deep_view());
    }
    out
}

} // verus!
