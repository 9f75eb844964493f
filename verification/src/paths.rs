//! Path model and ordering.
//!
//! A relative path is a non-empty list of components; a component is a
//! `String`. Paths are ordered lexicographically over their components,
//! and components lexicographically over their characters (by code point),
//! which matches byte order for UTF-8 text.

use vstd::prelude::*;

verus! {

/// Strict lexicographic order on character sequences, by code point.
pub open spec fn str_lt(a: Seq<char>, b: Seq<char>) -> bool
    decreases a.len() + b.len(),
{
    if b.len() == 0 {
        false
    } else if a.len() == 0 {
        true
    } else if a[0] != b[0] {
        (a[0] as u32) < (b[0] as u32)
    } else {
        str_lt(a.skip(1), b.skip(1))
    }
}

/// Strict lexicographic order on paths (component lists).
pub open spec fn path_lt(a: Seq<Seq<char>>, b: Seq<Seq<char>>) -> bool
    decreases a.len() + b.len(),
{
    if b.len() == 0 {
        false
    } else if a.len() == 0 {
        true
    } else if a[0] != b[0] {
        str_lt(a[0], b[0])
    } else {
        path_lt(a.skip(1), b.skip(1))
    }
}

pub proof fn lemma_str_lt_trichotomy(a: Seq<char>, b: Seq<char>)
    ensures
        str_lt(a, b) || str_lt(b, a) || a == b,
        str_lt(a, b) ==> !str_lt(b, a) && a != b,
        str_lt(b, a) ==> !str_lt(a, b) && a != b,
    decreases a.len() + b.len(),
{
    if b.len() == 0 && a.len() == 0 {
        assert(a =~= b);
    } else if b.len() == 0 {
        assert(str_lt(b, a));
    } else if a.len() == 0 {
        assert(str_lt(a, b));
    } else if a[0] != b[0] {
        if (a[0] as u32) < (b[0] as u32) {
            assert(str_lt(a, b));
        } else if (b[0] as u32) < (a[0] as u32) {
            assert(str_lt(b, a));
        } else {
            vstd::utf8::char_u32_cast(a[0], a[0] as u32);
            vstd::utf8::char_u32_cast(b[0], b[0] as u32);
            assert(a[0] == b[0]);
        }
    } else {
        lemma_str_lt_trichotomy(a.skip(1), b.skip(1));
        if a.skip(1) == b.skip(1) {
            assert(a.skip(1).len() == a.len() - 1);
            assert(b.skip(1).len() == b.len() - 1);
            assert(forall|i: int| 1 <= i < a.len() ==> #[trigger] a[i] == a.skip(1)[i - 1]);
            assert(forall|i: int| 1 <= i < b.len() ==> #[trigger] b[i] == b.skip(1)[i - 1]);
            assert(a =~= b);
        }
        if a == b {
            assert(a.skip(1) =~= b.skip(1));
        }
    }
}

pub proof fn lemma_str_lt_transitive(a: Seq<char>, b: Seq<char>, c: Seq<char>)
    requires
        str_lt(a, b),
        str_lt(b, c),
    ensures
        str_lt(a, c),
    decreases a.len() + b.len() + c.len(),
{
    if a.len() == 0 || b.len() == 0 || c.len() == 0 {
    } else if a[0] == b[0] && b[0] == c[0] {
        lemma_str_lt_transitive(a.skip(1), b.skip(1), c.skip(1));
    }
}

pub proof fn lemma_path_lt_trichotomy(a: Seq<Seq<char>>, b: Seq<Seq<char>>)
    ensures
        path_lt(a, b) || path_lt(b, a) || a == b,
        path_lt(a, b) ==> !path_lt(b, a) && a != b,
        path_lt(b, a) ==> !path_lt(a, b) && a != b,
    decreases a.len() + b.len(),
{
    if b.len() == 0 || a.len() == 0 {
        if a.len() == 0 && b.len() == 0 {
            assert(a =~= b);
        }
    } else if a[0] != b[0] {
        lemma_str_lt_trichotomy(a[0], b[0]);
    } else {
        lemma_path_lt_trichotomy(a.skip(1), b.skip(1));
        if a.skip(1) == b.skip(1) {
            assert(a.skip(1).len() == a.len() - 1);
            assert(b.skip(1).len() == b.len() - 1);
            assert(forall|i: int| 1 <= i < a.len() ==> #[trigger] a[i] == a.skip(1)[i - 1]);
            assert(forall|i: int| 1 <= i < b.len() ==> #[trigger] b[i] == b.skip(1)[i - 1]);
            assert(a =~= b);
        }
        if a == b {
            assert(a.skip(1) =~= b.skip(1));
        }
    }
}

pub proof fn lemma_path_lt_transitive(a: Seq<Seq<char>>, b: Seq<Seq<char>>, c: Seq<Seq<char>>)
    requires
        path_lt(a, b),
        path_lt(b, c),
    ensures
        path_lt(a, c),
    decreases a.len() + b.len() + c.len(),
{
    if a.len() == 0 || b.len() == 0 || c.len() == 0 {
    } else if a[0] == b[0] && b[0] == c[0] {
        lemma_path_lt_transitive(a.skip(1), b.skip(1), c.skip(1));
    } else if a[0] == b[0] {
        // a[0] == b[0], b[0] != c[0]: str_lt(b[0], c[0]) decides
    } else if b[0] == c[0] {
    } else {
        lemma_str_lt_transitive(a[0], b[0], c[0]);
        lemma_str_lt_trichotomy(a[0], c[0]);
    }
}



/// Bridges a vector's deep view to its elements' views, entry by entry.
pub broadcast proof fn lemma_vec_deep_view_index<T: DeepView>(v: &Vec<T>, i: int)
    requires
        0 <= i < v@.len(),
    ensures
        #[trigger] v.deep_view()[i] == v@[i].deep_view(),
{
}

/// A vector's deep view has the vector's length.
pub broadcast proof fn lemma_vec_deep_view_len<T: DeepView>(v: &Vec<T>)
    ensures
        #[trigger] v.deep_view().len() == v@.len(),
{
}

/// A path's mathematical value: its components as character sequences.
pub open spec fn path_view(p: &Vec<String>) -> Seq<Seq<char>> {
    p.deep_view()
}

/// Relates a lexicographic comparison to an agreeing prefix of length `i`
/// followed by the first position where the two strings can differ.
pub proof fn lemma_str_lt_prefix(a: Seq<char>, b: Seq<char>, i: int)
    requires
        0 <= i <= a.len(),
        i <= b.len(),
        forall|k: int| 0 <= k < i ==> a[k] == b[k],
        i == a.len() || i == b.len() || a[i] != b[i],
    ensures
        str_lt(a, b) == (i < b.len() && (i == a.len() || (a[i] as u32) < (b[i] as u32))),
    decreases i,
{
    if i == 0 {
    } else {
        assert(a[0] == b[0]);
        assert(forall|k: int| 0 <= k < i - 1 ==> #[trigger] a.skip(1)[k] == b.skip(1)[k]);
        lemma_str_lt_prefix(a.skip(1), b.skip(1), i - 1);
    }
}

/// The path-level analogue of [`lemma_str_lt_prefix`].
pub proof fn lemma_path_lt_prefix(a: Seq<Seq<char>>, b: Seq<Seq<char>>, i: int)
    requires
        0 <= i <= a.len(),
        i <= b.len(),
        forall|k: int| 0 <= k < i ==> a[k] == b[k],
        i == a.len() || i == b.len() || a[i] != b[i],
    ensures
        path_lt(a, b) == (i < b.len() && (i == a.len() || str_lt(a[i], b[i]))),
    decreases i,
{
    if i == 0 {
    } else {
        assert(a[0] == b[0]);
        assert(forall|k: int| 0 <= k < i - 1 ==> #[trigger] a.skip(1)[k] == b.skip(1)[k]);
        lemma_path_lt_prefix(a.skip(1), b.skip(1), i - 1);
    }
}

/// Outcome of a three-way comparison.
pub enum CmpResult {
    Lt,
    Eq,
    Gt,
}

/// Three-way comparison of two strings in the order given by [`str_lt`].
pub fn str_compare(a: &str, b: &str) -> (r: CmpResult)
    ensures
        (r is Lt) == str_lt(a@, b@),
        (r is Gt) == str_lt(b@, a@),
        (r is Eq) == (a@ == b@),
{
    proof {
        lemma_str_lt_trichotomy(a@, b@);
    }
    let la = a.unicode_len();
    let lb = b.unicode_len();
    let mut i: usize = 0;
    while i < la && i < lb
        invariant
            i <= la,
            i <= lb,
            la == a@.len(),
            lb == b@.len(),
            forall|k: int| 0 <= k < i ==> a@[k] == b@[k],
        decreases la - i,
    {
        let ca = a.get_char(i);
        let cb = b.get_char(i);
        if ca != cb {
            proof {
                lemma_str_lt_prefix(a@, b@, i as int);
                lemma_str_lt_prefix(b@, a@, i as int);
                vstd::utf8::char_u32_cast(ca, ca as u32);
                vstd::utf8::char_u32_cast(cb, cb as u32);
            }
            if ca < cb {
                return CmpResult::Lt;
            } else {
                return CmpResult::Gt;
            }
        }
        i += 1;
    }
    proof {
        lemma_str_lt_prefix(a@, b@, i as int);
        lemma_str_lt_prefix(b@, a@, i as int);
        if la == lb {
            assert(a@ =~= b@);
        }
    }
    if la < lb {
        CmpResult::Lt
    } else if lb < la {
        CmpResult::Gt
    } else {
        CmpResult::Eq
    }
}

/// Three-way comparison of two paths in the order given by [`path_lt`].
pub fn path_compare(a: &Vec<String>, b: &Vec<String>) -> (r: CmpResult)
    ensures
        (r is Lt) == path_lt(path_view(a), path_view(b)),
        (r is Gt) == path_lt(path_view(b), path_view(a)),
        (r is Eq) == (path_view(a) == path_view(b)),
{
    proof {
        lemma_path_lt_trichotomy(path_view(a), path_view(b));
    }
    let la = a.len();
    let lb = b.len();
    let mut i: usize = 0;
    while i < la && i < lb
        invariant
            i <= la,
            i <= lb,
            la == a.len(),
            lb == b.len(),
            forall|k: int| 0 <= k < i ==> path_view(a)[k] == path_view(b)[k],
        decreases la - i,
    {
        match str_compare(a[i].as_str(), b[i].as_str()) {
            CmpResult::Lt => {
                proof {
                    lemma_path_lt_prefix(path_view(a), path_view(b), i as int);
                    lemma_path_lt_prefix(path_view(b), path_view(a), i as int);
                }
                return CmpResult::Lt;
            },
            CmpResult::Gt => {
                proof {
                    lemma_path_lt_prefix(path_view(a), path_view(b), i as int);
                    lemma_path_lt_prefix(path_view(b), path_view(a), i as int);
                }
                return CmpResult::Gt;
            },
            CmpResult::Eq => {
                i += 1;
            },
        }
    }
    proof {
        lemma_path_lt_prefix(path_view(a), path_view(b), i as int);
        lemma_path_lt_prefix(path_view(b), path_view(a), i as int);
        if la == lb {
            assert(path_view(a) =~= path_view(b));
        }
    }
    if la < lb {
        CmpResult::Lt
    } else if lb < la {
        CmpResult::Gt
    } else {
        CmpResult::Eq
    }
}

/// The paths stand in strictly increasing order, so each occurs once.
pub open spec fn sorted_strict(s: Seq<Seq<Seq<char>>>) -> bool {
    forall|i: int, j: int| 0 <= i < j < s.len() ==> path_lt(s[i], s[j])
}

/// Inserts `p` into a strictly sorted path list, keeping it strictly
/// sorted; a path already present is left alone, so no duplicate arises.
pub fn insert_path(list: &mut Vec<Vec<String>>, p: Vec<String>)
    requires
        sorted_strict(old(list).deep_view()),
    ensures
        sorted_strict(final(list).deep_view()),
        forall|q: Seq<Seq<char>>|
            final(list).deep_view().contains(q) <==> (old(list).deep_view().contains(q) || q
                == p.deep_view()),
{
    let ghost orig = list.deep_view();
    let mut j: usize = 0;
    loop
        invariant
            j <= list.len(),
            list.deep_view() == orig,
            sorted_strict(orig),
            forall|k: int| 0 <= k < j ==> path_lt(orig[k], p.deep_view()),
        ensures
            j <= list.len(),
            list.deep_view() == orig,
            forall|k: int| 0 <= k < j ==> path_lt(orig[k], p.deep_view()),
            j == list.len() || path_lt(p.deep_view(), orig[j as int]),
        decreases list.len() - j,
    {
        if j == list.len() {
            break ;
        }
        match path_compare(&list[j], &p) {
            CmpResult::Lt => {
                j += 1;
            },
            CmpResult::Eq => {
                proof {
                    assert(orig[j as int] == p.deep_view());
                    assert(orig.contains(p.deep_view()));
                    assert(forall|q: Seq<Seq<char>>|
                        orig.contains(q) <==> (orig.contains(q) || q == p.deep_view()));
                }
                return ;
            },
            CmpResult::Gt => {
                break ;
            },
        }
    }
    proof {
        assert(j == list.len() || path_lt(p.deep_view(), orig[j as int]));
    }
    list.insert(j, p);
    proof {
        let upd = list.deep_view();
        assert(upd.len() == orig.len() + 1);
        assert(forall|k: int| 0 <= k < j ==> upd[k] == orig[k]);
        assert(upd[j as int] == p.deep_view());
        assert(forall|k: int| j < k < upd.len() ==> upd[k] == orig[k - 1]);
        assert forall|x: int, y: int| 0 <= x < y < upd.len() implies path_lt(upd[x], upd[y]) by {
            if y < j {
            } else if x < j && y == j {
            } else if x < j && y > j {
                if y - 1 > j {
                    lemma_path_lt_transitive(p.deep_view(), orig[j as int], orig[y - 1]);
                }
                lemma_path_lt_transitive(orig[x], p.deep_view(), orig[y - 1]);
            } else if x == j {
                if j < orig.len() {
                    if y - 1 > j {
                        lemma_path_lt_transitive(p.deep_view(), orig[j as int], orig[y - 1]);
                    }
                }
            } else {
            }
        }
        assert forall|q: Seq<Seq<char>>| upd.contains(q) implies (orig.contains(q) || q
            == p.deep_view()) by {
            let w = choose|w: int| 0 <= w < upd.len() && upd[w] == q;
            if w < j {
                assert(orig[w] == q);
            } else if w > j {
                assert(orig[w - 1] == q);
            }
        }
        assert forall|q: Seq<Seq<char>>| (orig.contains(q) || q == p.deep_view()) implies
            upd.contains(q) by {
            if orig.contains(q) {
                let w = choose|w: int| 0 <= w < orig.len() && orig[w] == q;
                if w < j {
                    assert(upd[w] == q);
                } else {
                    assert(upd[w + 1] == q);
                }
            } else {
                assert(upd[j as int] == q);
            }
        }
    }
}

/// Two strictly sorted path lists with the same members are the same list.
/// This is what makes every selection deterministic: the output is fixed by
/// the set of paths alone, however the input was ordered.
pub proof fn lemma_sorted_unique(s1: Seq<Seq<Seq<char>>>, s2: Seq<Seq<Seq<char>>>)
    requires
        sorted_strict(s1),
        sorted_strict(s2),
        forall|q: Seq<Seq<char>>| s1.contains(q) <==> s2.contains(q),
    ensures
        s1 == s2,
    decreases s1.len(),
{
    if s1.len() == 0 {
        if s2.len() > 0 {
            assert(s2.contains(s2[0]));
        }
        assert(s1 =~= s2);
    } else if s2.len() == 0 {
        assert(s1.contains(s1[0]));
    } else {
        // The heads agree: each is a member of the other list, and anything
        // past the head is strictly greater than the head.
        assert(s1.contains(s1[0]));
        assert(s2.contains(s2[0]));
        let w1 = choose|w: int| 0 <= w < s2.len() && s2[w] == s1[0];
        let w2 = choose|w: int| 0 <= w < s1.len() && s1[w] == s2[0];
        lemma_path_lt_trichotomy(s1[0], s2[0]);
        if path_lt(s1[0], s2[0]) {
            assert(w1 > 0);
            assert(path_lt(s2[0], s2[w1]));
            lemma_path_lt_transitive(s1[0], s2[0], s2[w1]);
        } else if path_lt(s2[0], s1[0]) {
            assert(w2 > 0);
            assert(path_lt(s1[0], s1[w2]));
            lemma_path_lt_transitive(s2[0], s1[0], s1[w2]);
        }
        assert(s1[0] == s2[0]);
        let t1 = s1.skip(1);
        let t2 = s2.skip(1);
        assert(forall|k: int| 0 <= k < t1.len() ==> #[trigger] t1[k] == s1[k + 1]);
        assert(forall|k: int| 0 <= k < t2.len() ==> #[trigger] t2[k] == s2[k + 1]);
        assert forall|q: Seq<Seq<char>>| t1.contains(q) implies t2.contains(q) by {
            let w = choose|w: int| 0 <= w < t1.len() && t1[w] == q;
            assert(s1.contains(q));
            let v = choose|v: int| 0 <= v < s2.len() && s2[v] == q;
            assert(path_lt(s1[0], s1[w + 1]));
            if v == 0 {
                lemma_path_lt_trichotomy(s1[0], q);
            }
            assert(v > 0);
            assert(t2[v - 1] == q);
        }
        assert forall|q: Seq<Seq<char>>| t2.contains(q) implies t1.contains(q) by {
            let w = choose|w: int| 0 <= w < t2.len() && t2[w] == q;
            assert(s2.contains(q));
            let v = choose|v: int| 0 <= v < s1.len() && s1[v] == q;
            assert(path_lt(s2[0], s2[w + 1]));
            if v == 0 {
                lemma_path_lt_trichotomy(s2[0], q);
            }
            assert(v > 0);
            assert(t1[v - 1] == q);
        }
        lemma_sorted_unique(t1, t2);
        assert forall|i: int| 0 <= i < s1.len() implies s1[i] == s2[i] by {
            if i > 0 {
                assert(s1[i] == t1[i - 1]);
                assert(s2[i] == t2[i - 1]);
            }
        }
        assert(s1 =~= s2);
    }
}


/// The path as one string: components joined with `/`.
pub open spec fn joined(p: Seq<Seq<char>>) -> Seq<char>
    decreases p.len(),
{
    if p.len() == 0 {
        Seq::empty()
    } else if p.len() == 1 {
        p[0]
    } else {
        p[0] + seq!['/'] + joined(p.skip(1))
    }
}

/// Appending one more component extends the joined string by a separator
/// and that component.
pub proof fn lemma_joined_push(p: Seq<Seq<char>>, x: Seq<char>)
    ensures
        joined(p.push(x)) == if p.len() == 0 {
            x
        } else {
            joined(p) + seq!['/'] + x
        },
    decreases p.len(),
{
    let q = p.push(x);
    if p.len() == 0 {
        assert(q.len() == 1);
        assert(q[0] == x);
    } else if p.len() == 1 {
        assert(q.skip(1) =~= seq![x]);
        assert(joined(q.skip(1)) == x);
        assert(joined(q) == q[0] + seq!['/'] + x);
        assert(joined(p) == p[0]);
        assert(q[0] == p[0]);
    } else {
        assert(q.skip(1) =~= p.skip(1).push(x));
        lemma_joined_push(p.skip(1), x);
        assert(joined(q) == q[0] + seq!['/'] + joined(p.skip(1).push(x)));
        assert(q[0] == p[0]);
        assert(joined(q) == p[0] + seq!['/'] + (joined(p.skip(1)) + seq!['/'] + x));
        assert(joined(p) + seq!['/'] + x =~= p[0] + seq!['/'] + (joined(p.skip(1)) + seq!['/']
            + x));
    }
}

/// Joins the components with `/` into one relative-path string.
pub fn join_path(p: &Vec<String>) -> (r: String)
    ensures
        r@ == joined(p.deep_view()),
{
    let ghost dv = p.deep_view();
    let mut r = String::new();
    let mut i: usize = 0;
    proof {
        assert(dv.take(0) =~= Seq::<Seq<char>>::empty());
    }
    while i < p.len()
        invariant
            i <= p.len(),
            dv == p.deep_view(),
            dv.len() == p.len(),
            r@ == joined(dv.take(i as int)),
        decreases p.len() - i,
    {
        if i > 0 {
            r.append("/");
            proof {
                reveal_strlit("/");
                assert("/"@ =~= seq!['/']);
            }
        }
        r.append(p[i].as_str());
        proof {
            assert(dv.take(i + 1) =~= dv.take(i as int).push(dv[i as int]));
            lemma_joined_push(dv.take(i as int), dv[i as int]);
        }
        i += 1;
    }
    proof {
        assert(dv.take(p.len() as int) =~= dv);
    }
    r
}

} // verus!
