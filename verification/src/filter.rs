//! The path filter: extension and regex rules deciding which files' content
//! is included.
//!
//! A filter configuration holds include/exclude extension lists (compared
//! case-insensitively) and include/exclude regex pattern lists (matched
//! against the path relative to the root). [`CompiledFilter::path_passes`]
//! states the whole rule as one equivalence.

use vstd::prelude::*;
use vstd::string::StrSliceExecFns;
use vstd::string::StringExecFns;
use crate::paths::{joined, join_path, path_view, str_compare, CmpResult};

verus! {

broadcast use crate::paths::lemma_vec_deep_view_index, crate::paths::lemma_vec_deep_view_len;

/// What `str::to_lowercase` returns for the given characters.
pub uninterp spec fn lower_of(s: Seq<char>) -> Seq<char>;

/// Whether the given pattern is a well-formed regular expression, that is,
/// whether `regex::Regex::new` accepts it.
pub uninterp spec fn regex_valid(pat: Seq<char>) -> bool;

/// Whether the given well-formed pattern matches somewhere in the given
/// text, as `regex::Regex::is_match` decides it.
pub uninterp spec fn regex_match(pat: Seq<char>, text: Seq<char>) -> bool;

/// Relies on `str::to_lowercase`: the result depends on the characters
/// alone.
#[verifier::external_body]
fn lowercase(s: &str) -> (r: String)
    ensures
        r@ == lower_of(s@),
{
    s.to_lowercase()
}

/// Relies on `regex::Regex::new`: whether a pattern compiles depends on the
/// pattern alone.
#[verifier::external_body]
fn regex_compiles(pat: &str) -> (r: bool)
    ensures
        r == regex_valid(pat@),
{
    regex::Regex::new(pat).is_ok()
}

/// Relies on `regex::Regex::new` and `regex::Regex::is_match`: whether a
/// well-formed pattern matches a text depends on the pattern and the text
/// alone. The pattern is compiled afresh on each call so that the contract
/// can speak of the pattern string itself; only patterns that compile reach
/// this point, so the error arm is dead.
#[verifier::external_body]
fn regex_is_match(pat: &str, text: &str) -> (r: bool)
    requires
        regex_valid(pat@),
    ensures
        r == regex_match(pat@, text@),
{
    match regex::Regex::new(pat) {
        Ok(re) => re.is_match(text),
        Err(_) => false,
    }
}

/// Index of the last `.` in a file name at a position at or below `i`,
/// never counting a leading dot, so that a dotfile has no extension.
pub open spec fn dot_search(name: Seq<char>, i: int) -> Option<int>
    decreases i,
{
    if i < 1 {
        None
    } else if name[i] == '.' {
        Some(i)
    } else {
        dot_search(name, i - 1)
    }
}

/// The extension of a file name: what follows the last dot, unless the only
/// dot leads the name. Mirrors how the standard library reads an extension.
pub open spec fn ext_of_name(name: Seq<char>) -> Option<Seq<char>> {
    match dot_search(name, name.len() - 1) {
        Some(k) => Some(name.skip(k + 1)),
        None => None,
    }
}

/// The extension of a path: the extension of its last component.
pub open spec fn ext_of_path(p: Seq<Seq<char>>) -> Option<Seq<char>> {
    if p.len() == 0 {
        None
    } else {
        ext_of_name(p[p.len() - 1])
    }
}

/// Extracts the extension of a file name.
pub fn extension_of(name: &str) -> (r: Option<String>)
    ensures
        (r is None) == (ext_of_name(name@) is None),
        r matches Some(e) ==> ext_of_name(name@) == Some(e@),
{
    let n = name.unicode_len();
    if n == 0 {
        return None;
    }
    let mut i: usize = n - 1;
    loop
        invariant
            i <= n - 1,
            n == name@.len(),
            n >= 1,
            dot_search(name@, n - 1) == dot_search(name@, i as int),
        decreases i,
    {
        let c = name.get_char(i);
        if c == '.' {
            if i >= 1 {
                let e = name.substring_char(i + 1, n).to_owned();
                proof {
                    assert(name@.skip(i + 1) =~= name@.subrange(i + 1, n as int));
                }
                return Some(e);
            } else {
                return None;
            }
        }
        if i == 0 {
            return None;
        }
        i -= 1;
    }
}

/// The mathematical content of a compiled filter: its four rule lists.
pub struct FilterView {
    pub include_ext: Seq<Seq<char>>,
    pub exclude_ext: Seq<Seq<char>>,
    pub include_path: Seq<Seq<char>>,
    pub exclude_path: Seq<Seq<char>>,
}

/// The extension rule admits the path: either no include-extension list was
/// given, or the path has an extension on that list (case-insensitively).
pub open spec fn ext_allowed(fv: FilterView, p: Seq<Seq<char>>) -> bool {
    fv.include_ext.len() == 0 || (ext_of_path(p) matches Some(e) && (exists|i: int|
        0 <= i < fv.include_ext.len() && lower_of(#[trigger] fv.include_ext[i]) == lower_of(e)))
}

/// The path's extension stands on the exclude-extension list.
pub open spec fn ext_excluded(fv: FilterView, p: Seq<Seq<char>>) -> bool {
    ext_of_path(p) matches Some(e) && (exists|i: int|
        0 <= i < fv.exclude_ext.len() && lower_of(#[trigger] fv.exclude_ext[i]) == lower_of(e))
}

/// Some exclude pattern matches the relative path string.
pub open spec fn path_excluded(fv: FilterView, p: Seq<Seq<char>>) -> bool {
    exists|i: int|
        0 <= i < fv.exclude_path.len() && regex_match(
            #[trigger] fv.exclude_path[i],
            joined(p),
        )
}

/// The pattern rule admits the path: either no include pattern was given,
/// or some include pattern matches the relative path string.
pub open spec fn path_included(fv: FilterView, p: Seq<Seq<char>>) -> bool {
    fv.include_path.len() == 0 || (exists|i: int|
        0 <= i < fv.include_path.len() && regex_match(
            #[trigger] fv.include_path[i],
            joined(p),
        ))
}

/// The whole filter rule: a path passes iff its extension is allowed and
/// not excluded, no exclude pattern matches, and the include patterns (if
/// any were given) admit it.
pub open spec fn passes(fv: FilterView, p: Seq<Seq<char>>) -> bool {
    ext_allowed(fv, p) && !ext_excluded(fv, p) && !path_excluded(fv, p) && path_included(fv, p)
}

/// Position of the first pattern in the list that is not a well-formed
/// regular expression.
pub open spec fn first_invalid(pats: Seq<Seq<char>>) -> Option<int>
    decreases pats.len(),
{
    if pats.len() == 0 {
        None
    } else if !regex_valid(pats[0]) {
        Some(0)
    } else {
        match first_invalid(pats.skip(1)) {
            None => None,
            Some(k) => Some(k + 1),
        }
    }
}

proof fn lemma_first_invalid(pats: Seq<Seq<char>>, i: int)
    requires
        0 <= i <= pats.len(),
        forall|k: int| 0 <= k < i ==> regex_valid(#[trigger] pats[k]),
        i == pats.len() || !regex_valid(pats[i]),
    ensures
        first_invalid(pats) == if i == pats.len() {
            Option::<int>::None
        } else {
            Option::<int>::Some(i)
        },
    decreases i,
{
    if i == 0 {
    } else {
        assert(regex_valid(pats[0]));
        assert(forall|k: int| 0 <= k < i - 1 ==> #[trigger] pats.skip(1)[k] == pats[k + 1]);
        lemma_first_invalid(pats.skip(1), i - 1);
    }
}

/// Returns the position of the first pattern that does not compile.
fn find_invalid(pats: &Vec<String>) -> (r: Option<usize>)
    ensures
        (r is None) == (first_invalid(pats.deep_view()) is None),
        r matches Some(i) ==> first_invalid(pats.deep_view()) == Some(i as int) && i
            < pats.len() && !regex_valid(pats.deep_view()[i as int]),
{
    let ghost dv = pats.deep_view();
    let mut i: usize = 0;
    while i < pats.len()
        invariant
            i <= pats.len(),
            dv == pats.deep_view(),
            dv.len() == pats.len(),
            forall|k: int| 0 <= k < i ==> regex_valid(#[trigger] dv[k]),
        decreases pats.len() - i,
    {
        proof {
            assert(dv[i as int] == pats@[i as int]@);
        }
        if !regex_compiles(pats[i].as_str()) {
            proof {
                lemma_first_invalid(dv, i as int);
            }
            return Some(i);
        }
        i += 1;
    }
    proof {
        lemma_first_invalid(dv, pats.len() as int);
    }
    None
}

/// Lowercases every entry of a list.
fn lower_all(list: &Vec<String>) -> (r: Vec<String>)
    ensures
        r.deep_view().len() == list.deep_view().len(),
        forall|i: int|
            0 <= i < list.deep_view().len() ==> #[trigger] r.deep_view()[i] == lower_of(
                list.deep_view()[i],
            ),
{
    let mut out: Vec<String> = Vec::new();
    let mut i: usize = 0;
    while i < list.len()
        invariant
            i <= list.len(),
            out.deep_view().len() == i,
            forall|k: int|
                0 <= k < i ==> #[trigger] out.deep_view()[k] == lower_of(list.deep_view()[k]),
        decreases list.len() - i,
    {
        let ghost prev = out.deep_view();
        out.push(lowercase(list[i].as_str()));
        proof {
            assert forall|k: int| 0 <= k < i + 1 implies #[trigger] out.deep_view()[k]
                == lower_of(list.deep_view()[k]) by {
                if k < i {
                    assert(out.deep_view()[k] == prev[k]);
                } else {
                    assert(out.deep_view()[k] == out@[k]@);
                    assert(list.deep_view()[k] == list@[k]@);
                }
            }
        }
        i += 1;
    }
    out
}

/// Whether some entry of the list equals the given string.
fn contains_str(list: &Vec<String>, s: &String) -> (r: bool)
    ensures
        r == exists|i: int| 0 <= i < list.deep_view().len() && #[trigger] list.deep_view()[i]
            == s@,
{
    let mut i: usize = 0;
    while i < list.len()
        invariant
            i <= list.len(),
            forall|k: int| 0 <= k < i ==> #[trigger] list.deep_view()[k] != s@,
        decreases list.len() - i,
    {
        match str_compare(list[i].as_str(), s.as_str()) {
            CmpResult::Eq => {
                proof {
                    assert(list.deep_view()[i as int] == s@);
                }
                return true;
            },
            _ => {
                proof {
                    assert(list.deep_view()[i as int] == list@[i as int]@);
                }
            },
        }
        i += 1;
    }
    false
}

/// A filter rejected at setup: one of the path patterns is not a
/// well-formed regular expression.
#[derive(Debug)]
pub enum FilterError {
    InvalidIncludePattern { pattern: String },
    InvalidExcludePattern { pattern: String },
}

/// The diagnostic text of a setup error.
pub open spec fn spec_error_message(e: FilterError) -> Seq<char> {
    match e {
        FilterError::InvalidIncludePattern { pattern } => "invalid regular expression (include-path): "@
            + pattern@,
        FilterError::InvalidExcludePattern { pattern } => "invalid regular expression (exclude-path): "@
            + pattern@,
    }
}

impl FilterError {
    /// Renders the error for the error stream.
    pub fn message(&self) -> (r: String)
        ensures
            r@ == spec_error_message(*self),
    {
        match self {
            FilterError::InvalidIncludePattern { pattern } => {
                let mut s = String::new();
                s.append("invalid regular expression (include-path): ");
                s.append(pattern.as_str());
                s
            },
            FilterError::InvalidExcludePattern { pattern } => {
                let mut s = String::new();
                s.append("invalid regular expression (exclude-path): ");
                s.append(pattern.as_str());
                s
            },
        }
    }
}

/// The filter options as given on the command line. The pattern lists are
/// raw strings here; building a [`CompiledFilter`] checks them.
pub struct FilterConfig {
    pub include_ext: Vec<String>,
    pub exclude_ext: Vec<String>,
    pub include_path: Vec<String>,
    pub exclude_path: Vec<String>,
    pub filter_tree: bool,
    pub include_gitignore: bool,
}

/// A checked filter: every pattern is a well-formed regular expression, and
/// the lowercased extension lists are kept beside the given ones.
pub struct CompiledFilter {
    include_ext: Vec<String>,
    include_ext_lower: Vec<String>,
    exclude_ext: Vec<String>,
    exclude_ext_lower: Vec<String>,
    include_path: Vec<String>,
    exclude_path: Vec<String>,
}

impl View for CompiledFilter {
    type V = FilterView;

    closed spec fn view(&self) -> FilterView {
        FilterView {
            include_ext: self.include_ext.deep_view(),
            exclude_ext: self.exclude_ext.deep_view(),
            include_path: self.include_path.deep_view(),
            exclude_path: self.exclude_path.deep_view(),
        }
    }
}

impl CompiledFilter {
    #[verifier::type_invariant]
    spec fn wf(self) -> bool {
        &&& self.include_ext_lower.deep_view().len() == self.include_ext.deep_view().len()
        &&& forall|i: int|
            #![trigger self.include_ext_lower.deep_view()[i]]
            #![trigger self.include_ext.deep_view()[i]]
            0 <= i < self.include_ext.deep_view().len() ==> self.include_ext_lower.deep_view()[i]
                == lower_of(self.include_ext.deep_view()[i])
        &&& self.exclude_ext_lower.deep_view().len() == self.exclude_ext.deep_view().len()
        &&& forall|i: int|
            #![trigger self.exclude_ext_lower.deep_view()[i]]
            #![trigger self.exclude_ext.deep_view()[i]]
            0 <= i < self.exclude_ext.deep_view().len() ==> self.exclude_ext_lower.deep_view()[i]
                == lower_of(self.exclude_ext.deep_view()[i])
        &&& forall|i: int|
            0 <= i < self.include_path.deep_view().len() ==> regex_valid(
                #[trigger] self.include_path.deep_view()[i],
            )
        &&& forall|i: int|
            0 <= i < self.exclude_path.deep_view().len() ==> regex_valid(
                #[trigger] self.exclude_path.deep_view()[i],
            )
    }

    /// Checks the configured patterns and builds the filter. Fails exactly
    /// when some pattern does not compile, naming the first offender, the
    /// include list checked first.
    pub fn build(cfg: &FilterConfig) -> (r: Result<CompiledFilter, FilterError>)
        ensures
            (r is Ok) == ((forall|i: int|
                0 <= i < cfg.include_path.deep_view().len() ==> regex_valid(
                    #[trigger] cfg.include_path.deep_view()[i],
                )) && (forall|i: int|
                0 <= i < cfg.exclude_path.deep_view().len() ==> regex_valid(
                    #[trigger] cfg.exclude_path.deep_view()[i],
                ))),
            r matches Ok(f) ==> f@ == (FilterView {
                include_ext: cfg.include_ext.deep_view(),
                exclude_ext: cfg.exclude_ext.deep_view(),
                include_path: cfg.include_path.deep_view(),
                exclude_path: cfg.exclude_path.deep_view(),
            }),
            first_invalid(cfg.include_path.deep_view()) matches Some(k) ==> (r matches Err(e)
                && e matches FilterError::InvalidIncludePattern { pattern } && pattern@
                == cfg.include_path.deep_view()[k]),
            first_invalid(cfg.include_path.deep_view()) is None ==> (first_invalid(
                cfg.exclude_path.deep_view(),
            ) matches Some(k) ==> (r matches Err(e) && e
                matches FilterError::InvalidExcludePattern { pattern } && pattern@
                == cfg.exclude_path.deep_view()[k])),
    {
        if let Some(i) = find_invalid(&cfg.include_path) {
            proof {
                assert(cfg.include_path.deep_view()[i as int] == cfg.include_path@[i as int]@);
            }
            return Err(FilterError::InvalidIncludePattern { pattern: cfg.include_path[i].clone() });
        }
        if let Some(i) = find_invalid(&cfg.exclude_path) {
            proof {
                assert(cfg.exclude_path.deep_view()[i as int] == cfg.exclude_path@[i as int]@);
            }
            return Err(FilterError::InvalidExcludePattern { pattern: cfg.exclude_path[i].clone() });
        }
        proof {
            lemma_first_invalid_none(cfg.include_path.deep_view());
            lemma_first_invalid_none(cfg.exclude_path.deep_view());
        }
        Ok(
            CompiledFilter {
                include_ext: clone_strings(&cfg.include_ext),
                include_ext_lower: lower_all(&cfg.include_ext),
                exclude_ext: clone_strings(&cfg.exclude_ext),
                exclude_ext_lower: lower_all(&cfg.exclude_ext),
                include_path: clone_strings(&cfg.include_path),
                exclude_path: clone_strings(&cfg.exclude_path),
            },
        )
    }

    /// Decides whether a path passes the filter. States the whole rule of
    /// the filter as one equivalence over the configured lists.
    pub fn path_passes(&self, path: &Vec<String>) -> (r: bool)
        ensures
            r == passes(self@, path_view(path)),
    {
        proof {
            use_type_invariant(&*self);
        }
        let ghost p = path_view(path);
        let ext: Option<String> = if path.len() == 0 {
            None
        } else {
            proof {
                assert(p[path.len() - 1] == path@[path.len() - 1]@);
            }
            extension_of(path[path.len() - 1].as_str())
        };
        proof {
            assert((ext is None) == (ext_of_path(p) is None));
            if ext is Some {
                assert(ext_of_path(p) == Some(ext->0@));
            }
        }
        if self.include_ext_lower.len() > 0 {
            match &ext {
                None => {
                    proof {
                        assert(self@.include_ext.len() > 0);
                        assert(!ext_allowed(self@, p));
                    }
                    return false;
                },
                Some(e) => {
                    let le = lowercase(e.as_str());
                    if !contains_str(&self.include_ext_lower, &le) {
                        proof {
                            assert forall|i: int|
                                0 <= i < self@.include_ext.len() implies lower_of(
                                #[trigger] self@.include_ext[i],
                            ) != lower_of(e@) by {
                                assert(self.include_ext_lower.deep_view()[i] == lower_of(
                                    self@.include_ext[i],
                                ));
                            }
                            assert(!ext_allowed(self@, p));
                        }
                        return false;
                    }
                },
            }
        }
        if let Some(e) = &ext {
            let le = lowercase(e.as_str());
            if contains_str(&self.exclude_ext_lower, &le) {
                proof {
                    let i = choose|i: int|
                        0 <= i < self.exclude_ext_lower.deep_view().len()
                            && self.exclude_ext_lower.deep_view()[i] == le@;
                    assert(lower_of(self@.exclude_ext[i]) == lower_of(e@));
                    assert(ext_excluded(self@, p));
                }
                return false;
            }
        }
        proof {
            if ext_excluded(self@, p) {
                let i = choose|i: int|
                    0 <= i < self@.exclude_ext.len() && lower_of(#[trigger] self@.exclude_ext[i])
                        == lower_of(ext_of_path(p)->0);
                assert(self.exclude_ext_lower.deep_view()[i] == lower_of(self@.exclude_ext[i]));
            }
            assert(!ext_excluded(self@, p));
            if self@.include_ext.len() > 0 {
                let i = choose|i: int|
                    0 <= i < self.include_ext_lower.deep_view().len()
                        && self.include_ext_lower.deep_view()[i] == lower_of(ext_of_path(p)->0);
                assert(lower_of(self@.include_ext[i]) == lower_of(ext_of_path(p)->0));
            }
            assert(ext_allowed(self@, p));
        }
        let rel = join_path(path);
        let mut i: usize = 0;
        while i < self.exclude_path.len()
            invariant
                i <= self.exclude_path.len(),
                self.wf(),
                rel@ == joined(p),
                p == path_view(path),
                ext_allowed(self@, p),
                !ext_excluded(self@, p),
                forall|k: int|
                    0 <= k < i ==> !regex_match(#[trigger] self@.exclude_path[k], joined(p)),
            decreases self.exclude_path.len() - i,
        {
            proof {
                assert(self@.exclude_path[i as int] == self.exclude_path@[i as int]@);
            }
            if regex_is_match(self.exclude_path[i].as_str(), rel.as_str()) {
                proof {
                    assert(regex_match(self@.exclude_path[i as int], joined(p)));
                    assert(path_excluded(self@, p));
                }
                return false;
            }
            i += 1;
        }
        proof {
            assert(!path_excluded(self@, p));
        }
        if self.include_path.len() > 0 {
            let mut j: usize = 0;
            while j < self.include_path.len()
                invariant
                    j <= self.include_path.len(),
                    self.wf(),
                    rel@ == joined(p),
                    p == path_view(path),
                    !path_excluded(self@, p),
                    !ext_excluded(self@, p),
                    ext_allowed(self@, p),
                    forall|k: int|
                        0 <= k < j ==> !regex_match(#[trigger] self@.include_path[k], joined(p)),
                decreases self.include_path.len() - j,
            {
                proof {
                    assert(self@.include_path[j as int] == self.include_path@[j as int]@);
                }
                if regex_is_match(self.include_path[j].as_str(), rel.as_str()) {
                    proof {
                        assert(regex_match(self@.include_path[j as int], joined(p)));
                        assert(path_included(self@, p));
                    }
                    return true;
                }
                j += 1;
            }
            proof {
                assert(!path_included(self@, p));
            }
            return false;
        }
        proof {
            assert(self@.include_path.len() == 0);
            assert(path_included(self@, p));
        }
        true
    }
}

proof fn lemma_first_invalid_none(pats: Seq<Seq<char>>)
    requires
        first_invalid(pats) is None,
    ensures
        forall|i: int| 0 <= i < pats.len() ==> regex_valid(#[trigger] pats[i]),
    decreases pats.len(),
{
    if pats.len() > 0 {
        lemma_first_invalid_none(pats.skip(1));
        assert forall|i: int| 0 <= i < pats.len() implies regex_valid(#[trigger] pats[i]) by {
            if i >= 1 {
                assert(pats[i] == pats.skip(1)[i - 1]);
            }
        }
    }
}

/// Copies a list of strings.
fn clone_strings(list: &Vec<String>) -> (r: Vec<String>)
    ensures
        r.deep_view() == list.deep_view(),
{
    let mut out: Vec<String> = Vec::new();
    let mut i: usize = 0;
    while i < list.len()
        invariant
            i <= list.len(),
            out.deep_view().len() == i,
            forall|k: int| 0 <= k < i ==> #[trigger] out.deep_view()[k] == list.deep_view()[k],
        decreases list.len() - i,
    {
        let ghost prev = out.deep_view();
        out.push(list[i].clone());
        proof {
            assert forall|k: int| 0 <= k < i + 1 implies #[trigger] out.deep_view()[k]
                == list.deep_view()[k] by {
                if k < i {
                    assert(out.deep_view()[k] == prev[k]);
                } else {
                    assert(out.deep_view()[k] == out@[k]@);
                    assert(list.deep_view()[k] == list@[k]@);
                }
            }
        }
        i += 1;
    }
    proof {
        assert(out.deep_view() =~= list.deep_view());
    }
    out
}

} // verus!
