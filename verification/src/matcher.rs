//! Pattern-based file selection: a list of glob patterns is compiled into an
//! include set and an exclude set (patterns with a leading `!`), and a path is
//! selected when it matches the include side and no exclusion. Exclusion
//! always wins over inclusion.

use vstd::prelude::*;

verus! {

/// Whether `pattern` is well-formed glob syntax, as `globset::Glob::new`
/// decides it.
pub uninterp spec fn glob_valid(pattern: Seq<char>) -> bool;

/// Whether the glob compiled from `pattern` matches `path`.
pub uninterp spec fn glob_matches(pattern: Seq<char>, path: Seq<char>) -> bool;

/// The message of the parse error that `globset::Glob::new` reports for a
/// malformed `pattern`.
pub uninterp spec fn glob_error_text(pattern: Seq<char>) -> Seq<char>;

/// The patterns a `globset::GlobSetBuilder` has been given, in order.
pub uninterp spec fn builder_globs(b: globset::GlobSetBuilder) -> Seq<Seq<char>>;

/// The patterns a compiled `globset::GlobSet` was built from, in order.
pub uninterp spec fn set_globs(s: globset::GlobSet) -> Seq<Seq<char>>;

/// The rendered message of a `globset::Error`.
pub uninterp spec fn error_text(e: globset::Error) -> Seq<char>;

/// Whether compiling a glob set from these pattern texts succeeds, as
/// `globset::GlobSetBuilder::build` decides it — a function of the texts
/// alone, since the matching strategies are built from them.
pub uninterp spec fn build_ok(globs: Seq<Seq<char>>) -> bool;

#[verifier::external_type_specification]
#[verifier::external_body]
pub struct ExGlobSet(globset::GlobSet);

#[verifier::external_type_specification]
#[verifier::external_body]
pub struct ExGlobSetBuilder(globset::GlobSetBuilder);

#[verifier::external_type_specification]
#[verifier::external_body]
pub struct ExGlobError(globset::Error);

/// The universal glob given to the include side when no patterns are
/// supplied.
pub open spec fn match_all_pattern() -> Seq<char> {
    seq!['*', '*', '/', '*']
}

/// Relies on `globset::GlobSetBuilder::new`: a fresh builder holds no
/// patterns.
#[verifier::external_body]
fn globset_builder_new() -> (b: globset::GlobSetBuilder)
    ensures
        builder_globs(b) == Seq::<Seq<char>>::empty(),
{
    globset::GlobSetBuilder::new()
}

/// Relies on `globset::Glob::new` and `globset::GlobSetBuilder::add`:
/// parsing succeeds exactly on well-formed glob syntax, a function of the
/// pattern string alone, and `add` appends the parsed glob to the builder;
/// on a parse error the builder is left as it was. The wildcard-all pattern
/// `**/*` is well-formed.
#[verifier::external_body]
fn globset_builder_add(b: &mut globset::GlobSetBuilder, pattern: &str) -> (r: Result<
    (),
    globset::Error,
>)
    ensures
        r is Ok == glob_valid(pattern@),
        r is Ok ==> builder_globs(*final(b)) == builder_globs(*old(b)).push(pattern@),
        r is Err ==> builder_globs(*final(b)) == builder_globs(*old(b)),
        r matches Err(e) ==> error_text(e) == glob_error_text(pattern@),
        pattern@ == match_all_pattern() ==> r is Ok,
{
    match globset::Glob::new(pattern) {
        Ok(glob) => {
            b.add(glob);
            Ok(())
        },
        Err(e) => Err(e),
    }
}

/// Relies on `globset::GlobSetBuilder::build`: whether the set compiles is
/// a function of the builder's glob texts alone, and on success the
/// compiled set holds exactly those patterns, in order.
#[verifier::external_body]
fn globset_build(b: &globset::GlobSetBuilder) -> (r: Result<globset::GlobSet, globset::Error>)
    ensures
        r is Ok == build_ok(builder_globs(*b)),
        r matches Ok(s) ==> set_globs(s) == builder_globs(*b),
{
    b.build()
}

/// Relies on `globset::GlobSet::is_match`: true exactly when some glob in
/// the set matches the path.
#[verifier::external_body]
fn globset_is_match(s: &globset::GlobSet, path: &str) -> (r: bool)
    ensures
        r == (exists|i: int|
            0 <= i < set_globs(*s).len() && #[trigger] glob_matches(set_globs(*s)[i], path@)),
{
    s.is_match(path)
}

/// Relies on the `Display` impl of `globset::Error`: renders its message.
#[verifier::external_body]
fn globset_error_message(e: &globset::Error) -> (r: String)
    ensures
        r@ == error_text(*e),
{
    format!("{}", e)
}

/// An error from compiling the pattern list.
#[derive(Debug)]
pub enum FilterError {
    /// A pattern whose glob text is malformed, together with the message the
    /// glob parser reported for it.
    InvalidPattern(String, String),
}

/// Whether a pattern marks an exclusion (leading `!`).
pub open spec fn is_exclusion(p: Seq<char>) -> bool {
    p.len() > 0 && p[0] == '!'
}

/// The glob text a pattern contributes: exclusions are stripped of their
/// marker.
pub open spec fn effective_glob(p: Seq<char>) -> Seq<char> {
    if is_exclusion(p) {
        p.skip(1)
    } else {
        p
    }
}

/// Whether a pattern's glob text is well-formed.
pub open spec fn pattern_ok(p: Seq<char>) -> bool {
    glob_valid(effective_glob(p))
}

pub open spec fn all_patterns_ok(pats: Seq<Seq<char>>) -> bool {
    forall|i: int| 0 <= i < pats.len() ==> pattern_ok(#[trigger] pats[i])
}

/// `i` points at the first malformed pattern of the list.
pub open spec fn first_bad_pattern(pats: Seq<Seq<char>>, i: int) -> bool {
    &&& 0 <= i < pats.len()
    &&& !pattern_ok(pats[i])
    &&& forall|j: int| 0 <= j < i ==> pattern_ok(#[trigger] pats[j])
}

/// The non-exclusion patterns, in order.
pub open spec fn include_patterns(pats: Seq<Seq<char>>) -> Seq<Seq<char>>
    decreases pats.len(),
{
    if pats.len() == 0 {
        Seq::empty()
    } else if is_exclusion(pats.last()) {
        include_patterns(pats.drop_last())
    } else {
        include_patterns(pats.drop_last()).push(pats.last())
    }
}

/// The exclusion patterns, stripped of their marker, in order.
pub open spec fn exclude_patterns(pats: Seq<Seq<char>>) -> Seq<Seq<char>>
    decreases pats.len(),
{
    if pats.len() == 0 {
        Seq::empty()
    } else if is_exclusion(pats.last()) {
        exclude_patterns(pats.drop_last()).push(pats.last().skip(1))
    } else {
        exclude_patterns(pats.drop_last())
    }
}

/// The globs the include matcher is built from: the wildcard-all glob when
/// no patterns at all were supplied.
pub open spec fn spec_include_globs(pats: Seq<Seq<char>>) -> Seq<Seq<char>> {
    if pats.len() == 0 {
        seq![match_all_pattern()]
    } else {
        include_patterns(pats)
    }
}

/// The pattern list compiles: every pattern's glob text is well-formed and
/// both glob sets build from the partitioned texts.
pub open spec fn patterns_compile(pats: Seq<Seq<char>>) -> bool {
    &&& all_patterns_ok(pats)
    &&& build_ok(spec_include_globs(pats))
    &&& build_ok(exclude_patterns(pats))
}

/// The mathematical content of a `FileFilter`.
pub struct FilterView {
    pub includes: Seq<Seq<char>>,
    pub excludes: Seq<Seq<char>>,
    pub include_all: bool,
}

/// The filter a pattern list compiles to. `include_all` is true exactly when
/// the list is empty; every path is then considered included, whatever the
/// include matcher holds.
pub open spec fn spec_filter_of(pats: Seq<Seq<char>>) -> FilterView {
    FilterView {
        includes: spec_include_globs(pats),
        excludes: exclude_patterns(pats),
        include_all: pats.len() == 0,
    }
}

/// Whether any of `pats` matches `path`.
pub open spec fn matches_any(pats: Seq<Seq<char>>, path: Seq<char>) -> bool {
    exists|i: int| 0 <= i < pats.len() && #[trigger] glob_matches(pats[i], path)
}

/// Whether the filter selects `path`.
pub open spec fn spec_should_process(f: FilterView, path: Seq<char>) -> bool {
    (f.include_all || matches_any(f.includes, path)) && !matches_any(f.excludes, path)
}

/// Compiled include and exclude glob sets deciding which paths are
/// processed.
pub struct FileFilter {
    includes: globset::GlobSet,
    excludes: globset::GlobSet,
    include_all: bool,
}

impl View for FileFilter {
    type V = FilterView;

    closed spec fn view(&self) -> FilterView {
        FilterView {
            includes: set_globs(self.includes),
            excludes: set_globs(self.excludes),
            include_all: self.include_all,
        }
    }
}

impl FileFilter {
    /// Compiles the pattern list. Patterns with a leading `!` go, stripped,
    /// to the exclude side; all others to the include side; an empty list
    /// includes everything. The first malformed pattern is reported with the
    /// parser's message.
    pub fn new(patterns: &Vec<String>) -> (r: Result<FileFilter, FilterError>)
        ensures
            r matches Ok(f) ==> f@ == spec_filter_of(patterns.deep_view()) && all_patterns_ok(
                patterns.deep_view(),
            ),
            !all_patterns_ok(patterns.deep_view()) ==> r is Err,
            r matches Err(e) ==> e matches FilterError::InvalidPattern(_, _),
            r matches Err(e) ==> (!all_patterns_ok(patterns.deep_view()) ==> (e matches
                FilterError::InvalidPattern(p, m) && (exists|i: int|
                {
                    &&& #[trigger] first_bad_pattern(patterns.deep_view(), i)
                    &&& p@ == patterns.deep_view()[i]
                    &&& m@ == glob_error_text(effective_glob(patterns.deep_view()[i]))
                }))),
            patterns_compile(patterns.deep_view()) ==> r is Ok,
            r matches Err(e) ==> (all_patterns_ok(patterns.deep_view()) ==> (e matches
                FilterError::InvalidPattern(p, _) && p@ == Seq::<char>::empty())),
    {
        let ghost pats = patterns.deep_view();
        let mut include_builder = globset_builder_new();
        let mut exclude_builder = globset_builder_new();
        let mut include_all = true;
        let mut i: usize = 0;
        while i < patterns.len()
            invariant
                i <= pats.len(),
                pats == patterns.deep_view(),
                pats.len() == patterns@.len(),
                builder_globs(include_builder) == include_patterns(pats.take(i as int)),
                builder_globs(exclude_builder) == exclude_patterns(pats.take(i as int)),
                include_all == (i == 0),
                forall|j: int| 0 <= j < i ==> pattern_ok(#[trigger] pats[j]),
            decreases pats.len() - i,
        {
            let pattern = &patterns[i];
            proof {
                assert(pattern@ == pats[i as int]);
                assert(pats.take(i + 1).drop_last() =~= pats.take(i as int));
                assert(pats.take(i + 1).last() == pats[i as int]);
            }
            let n_chars = pattern.as_str().unicode_len();
            if n_chars > 0 && pattern.as_str().get_char(0) == '!' {
                let stripped = pattern.as_str().substring_char(1, n_chars);
                proof {
                    assert(stripped@ =~= pats[i as int].skip(1));
                }
                match globset_builder_add(&mut exclude_builder, stripped) {
                    Ok(_) => {},
                    Err(e) => {
                        let msg = globset_error_message(&e);
                        proof {
                            assert(first_bad_pattern(pats, i as int));
                        }
                        return Err(FilterError::InvalidPattern(pattern.clone(), msg));
                    },
                }
            } else {
                proof {
                    assert(!is_exclusion(pats[i as int]));
                }
                match globset_builder_add(&mut include_builder, pattern.as_str()) {
                    Ok(_) => {},
                    Err(e) => {
                        let msg = globset_error_message(&e);
                        proof {
                            assert(first_bad_pattern(pats, i as int));
                        }
                        return Err(FilterError::InvalidPattern(pattern.clone(), msg));
                    },
                }
            }
            include_all = false;
            i = i + 1;
        }
        proof {
            assert(pats.take(pats.len() as int) =~= pats);
        }
        if include_all {
            proof {
                reveal_strlit("**/*");
                assert("**/*"@ =~= match_all_pattern());
            }
            match globset_builder_add(&mut include_builder, "**/*") {
                Ok(_) => {
                    proof {
                        assert(Seq::<Seq<char>>::empty().push(match_all_pattern()) =~= seq![
                            match_all_pattern(),
                        ]);
                    }
                },
                Err(e) => {
                    // not reachable: the wildcard-all glob always parses
                    let msg = globset_error_message(&e);
                    return Err(FilterError::InvalidPattern(String::new(), msg));
                },
            }
        }
        let include_set = match globset_build(&include_builder) {
            Ok(s) => s,
            Err(e) => {
                let msg = globset_error_message(&e);
                return Err(FilterError::InvalidPattern(String::new(), msg));
            },
        };
        let exclude_set = match globset_build(&exclude_builder) {
            Ok(s) => s,
            Err(e) => {
                let msg = globset_error_message(&e);
                return Err(FilterError::InvalidPattern(String::new(), msg));
            },
        };
        Ok(FileFilter { includes: include_set, excludes: exclude_set, include_all })
    }

    /// Decides whether `path` is selected: it must match the include side
    /// (or the filter includes everything) and must match no exclusion.
    pub fn should_process(&self, path: &str) -> (r: bool)
        ensures
            r == spec_should_process(self@, path@),
    {
        (self.include_all || globset_is_match(&self.includes, path)) && !globset_is_match(
            &self.excludes,
            path,
        )
    }
}

/// Law: when no patterns are supplied, every path is selected.
pub proof fn lemma_no_patterns_selects_all(path: Seq<char>)
    ensures
        spec_should_process(spec_filter_of(Seq::<Seq<char>>::empty()), path),
{
}

/// Law: a path matched by any exclusion pattern is never selected, whatever
/// the include side says.
pub proof fn lemma_exclusion_wins(f: FilterView, path: Seq<char>)
    requires
        matches_any(f.excludes, path),
    ensures
        !spec_should_process(f, path),
{
}

} // verus!
