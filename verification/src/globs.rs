//! The path filters of a scan: which paths the user's patterns take in and
//! which they leave out. The patterns are parsed and matched by globset.

use crate::error::{ErrorView, TalosError, TalosResult};
use crate::sequences::{lemma_filter_empty, lemma_filter_push, lemma_take_push};
use crate::text::{joined, is_blank, texts, trim};
use crate::types::GlobPatterns;
use globset::{Glob, GlobSet, GlobSetBuilder};
use vstd::prelude::*;

verus! {

/// `globset::Glob`: a parsed pattern. Nothing is known of what is inside.
#[verifier::external_type_specification]
#[verifier::external_body]
pub struct ExGlob(globset::Glob);

/// `globset::GlobSet`: globs that are matched together. Nothing is known of
/// what is inside.
#[verifier::external_type_specification]
#[verifier::external_body]
pub struct ExGlobSet(globset::GlobSet);

/// `globset::GlobSetBuilder`: the globs a set will be built from. Nothing is
/// known of what is inside.
#[verifier::external_type_specification]
#[verifier::external_body]
pub struct ExGlobSetBuilder(globset::GlobSetBuilder);

/// `globset::Error`. Nothing is known of what is inside.
#[verifier::external_type_specification]
#[verifier::external_body]
pub struct ExGlobError(globset::Error);

/// What parsing `pattern` as a glob returns.
pub uninterp spec fn glob_outcome(pattern: Seq<char>) -> Result<Glob, globset::Error>;

/// The pattern a glob was parsed from.
pub uninterp spec fn glob_pattern(glob: Glob) -> Seq<char>;

/// Whether the glob parsed from `pattern` matches `path`.
pub uninterp spec fn glob_matches(pattern: Seq<char>, path: Seq<char>) -> bool;

/// The patterns of the globs added to a builder, in the order they were added.
pub uninterp spec fn builder_patterns(builder: GlobSetBuilder) -> Seq<Seq<char>>;

/// What building a set from globs with these patterns returns.
pub uninterp spec fn build_outcome(patterns: Seq<Seq<char>>) -> Result<GlobSet, globset::Error>;

/// The patterns of the globs in a set.
pub uninterp spec fn set_patterns(set: GlobSet) -> Seq<Seq<char>>;

/// The text that a glob error displays.
pub uninterp spec fn glob_error_message(error: globset::Error) -> Seq<char>;

/// Whether one of the patterns matches the path.
pub open spec fn matches_any(patterns: Seq<Seq<char>>, path: Seq<char>) -> bool {
    exists|i: int| 0 <= i < patterns.len() && glob_matches(#[trigger] patterns[i], path)
}

/// `Glob::new`: the result depends on the pattern alone, and a glob keeps
/// the pattern it was parsed from.
#[verifier::external_body]
pub(crate) fn parse_glob(pattern: &str) -> (r: Result<Glob, globset::Error>)
    ensures
        r == glob_outcome(pattern@),
        r matches Ok(glob) ==> glob_pattern(glob) == pattern@,
{
    Glob::new(pattern)
}

/// `GlobSetBuilder::new`: a builder without globs.
#[verifier::external_body]
pub(crate) fn new_builder() -> (builder: GlobSetBuilder)
    ensures
        builder_patterns(builder).len() == 0,
{
    GlobSetBuilder::new()
}

/// `GlobSetBuilder::add`: the glob is appended.
#[verifier::external_body]
pub(crate) fn add_glob(builder: &mut GlobSetBuilder, glob: Glob)
    ensures
        builder_patterns(*final(builder)) == builder_patterns(*old(builder)).push(
            glob_pattern(glob),
        ),
{
    builder.add(glob);
}

/// `GlobSetBuilder::build`: the result depends on the globs added alone, and
/// a set holds the globs it was built from.
#[verifier::external_body]
pub(crate) fn build_set(builder: &GlobSetBuilder) -> (r: Result<GlobSet, globset::Error>)
    ensures
        r == build_outcome(builder_patterns(*builder)),
        r matches Ok(set) ==> set_patterns(set) == builder_patterns(*builder),
{
    builder.build()
}

/// `GlobSet::is_match`: true exactly when some glob of the set matches.
#[verifier::external_body]
pub(crate) fn set_matches(set: &GlobSet, path: &str) -> (r: bool)
    ensures
        r == (exists|i: int|
            0 <= i < set_patterns(*set).len() && glob_matches(
                #[trigger] set_patterns(*set)[i],
                path@,
            )),
{
    set.is_match(path)
}

/// The `Display` text of a glob error.
#[verifier::external_body]
pub(crate) fn glob_error_text(error: &globset::Error) -> (text: String)
    ensures
        text@ == glob_error_message(*error),
{
    error.to_string()
}

/// The patterns left out of every scan: the directories of version control,
/// of dependencies, of build output and of coverage reports.
pub open spec fn default_excludes() -> Seq<Seq<char>> {
    seq!["node_modules/**"@, "dist/**"@, ".git/**"@, "coverage/**"@]
}

/// The patterns left out of every scan.
pub fn default_exclude_patterns() -> (v: Vec<String>)
    ensures
        texts(v) == default_excludes(),
{
    let mut v: Vec<String> = Vec::new();
    v.push("node_modules/**".to_owned());
    v.push("dist/**".to_owned());
    v.push(".git/**".to_owned());
    v.push("coverage/**".to_owned());
    assert(texts(v) =~= default_excludes());
    v
}

/// The user's patterns that count: those that are not blank.
pub open spec fn kept_patterns(patterns: Seq<Seq<char>>) -> Seq<Seq<char>> {
    patterns.filter(|p: Seq<char>| !is_blank(p))
}

/// The first of the patterns that does not parse, if there is one.
pub open spec fn first_invalid(patterns: Seq<Seq<char>>) -> Option<int>
    decreases patterns.len(),
{
    if patterns.len() == 0 {
        None
    } else if glob_outcome(patterns[0]) is Err {
        Some(0)
    } else {
        match first_invalid(patterns.drop_first()) {
            Some(i) => Some(i + 1),
            None => None,
        }
    }
}

/// The index found by `first_invalid` is that of a pattern that does not
/// parse, all patterns before it parse, and none is found only where every
/// pattern parses.
pub proof fn lemma_first_invalid(patterns: Seq<Seq<char>>)
    ensures
        match first_invalid(patterns) {
            Some(i) => 0 <= i < patterns.len() && glob_outcome(patterns[i]) is Err && forall|
                j: int,
            | 0 <= j < i ==> glob_outcome(#[trigger] patterns[j]) is Ok,
            None => forall|j: int|
                0 <= j < patterns.len() ==> glob_outcome(#[trigger] patterns[j]) is Ok,
        },
    decreases patterns.len(),
{
    if patterns.len() > 0 {
        let rest = patterns.drop_first();
        lemma_first_invalid(rest);
        if glob_outcome(patterns[0]) is Ok {
            match first_invalid(rest) {
                Some(i) => {
                    assert forall|j: int| 0 <= j < i + 1 implies glob_outcome(
                        #[trigger] patterns[j],
                    ) is Ok by {
                        if j > 0 {
                            assert(patterns[j] == rest[j - 1]);
                        }
                    }
                },
                None => {
                    assert forall|j: int| 0 <= j < patterns.len() implies glob_outcome(
                        #[trigger] patterns[j],
                    ) is Ok by {
                        if j > 0 {
                            assert(patterns[j] == rest[j - 1]);
                        }
                    }
                },
            }
        }
    }
}

/// A pattern that did not parse, with what the parser said.
pub struct InvalidGlob {
    pub pattern: String,
    pub error: globset::Error,
}

/// The patterns that are handed to the parser: all of them, or with
/// `skip_blank` those that are not blank.
pub open spec fn counted(patterns: Seq<Seq<char>>, skip_blank: bool) -> Seq<Seq<char>> {
    if skip_blank {
        kept_patterns(patterns)
    } else {
        patterns
    }
}

/// Whether `bad` is the first of `patterns` that does not parse, with its
/// error.
pub open spec fn is_first_invalid(patterns: Seq<Seq<char>>, bad: InvalidGlob) -> bool {
    match first_invalid(patterns) {
        Some(i) => bad.pattern@ == patterns[i] && glob_outcome(patterns[i]) == Err::<
            Glob,
            globset::Error,
        >(bad.error),
        None => false,
    }
}

/// Adds to the builder the glob of each pattern; with `skip_blank`, blank
/// patterns are passed over. Stops at the first pattern that does not parse.
pub(crate) fn add_patterns(
    builder: &mut GlobSetBuilder,
    patterns: &Vec<String>,
    skip_blank: bool,
) -> (r: Result<(), InvalidGlob>)
    ensures
        r is Ok <==> first_invalid(counted(texts(*patterns), skip_blank)) is None,
        r is Ok ==> builder_patterns(*final(builder)) == builder_patterns(*old(builder))
            + counted(texts(*patterns), skip_blank),
        r matches Err(bad) ==> is_first_invalid(counted(texts(*patterns), skip_blank), bad),
{
    let ghost all = texts(*patterns);
    let ghost keep = |p: Seq<char>| !skip_blank || !is_blank(p);
    let ghost start = builder_patterns(*builder);
    proof {
        lemma_filter_empty(keep);
        assert(all.take(0) =~= Seq::<Seq<char>>::empty());
        assert(start + Seq::<Seq<char>>::empty() =~= start);
    }
    for i in 0..patterns.len()
        invariant
            all == texts(*patterns),
            keep == |p: Seq<char>| !skip_blank || !is_blank(p),
            start == builder_patterns(*old(builder)),
            builder_patterns(*builder) == start + all.take(i as int).filter(keep),
            first_invalid(all.take(i as int).filter(keep)) is None,
    {
        let pattern = patterns[i].as_str();
        let ghost done = all.take(i as int).filter(keep);
        proof {
            assert(all[i as int] == pattern@);
            lemma_take_push(all, i as int);
            lemma_filter_push(all.take(i as int), pattern@, keep);
        }
        if !(skip_blank && trim(pattern).is_empty()) {
            proof {
                lemma_first_invalid_push(done, pattern@);
            }
            match parse_glob(pattern) {
                Ok(glob) => {
                    add_glob(builder, glob);
                    assert(start + done.push(pattern@) =~= (start + done).push(pattern@));
                },
                Err(error) => {
                    proof {
                        let wanted = all.filter(keep);
                        assert(all =~= all.take(i + 1) + all.skip(i + 1));
                        Seq::filter_distributes_over_add(all.take(i + 1), all.skip(i + 1), keep);
                        lemma_first_invalid_prefix(
                            done.push(pattern@),
                            all.skip(i + 1).filter(keep),
                        );
                        lemma_kept_all(all, skip_blank);
                    }
                    return Err(InvalidGlob { pattern: pattern.to_owned(), error });
                },
            }
        }
    }
    proof {
        assert(all.take(patterns.len() as int) =~= all);
        lemma_kept_all(all, skip_blank);
    }
    Ok(())
}

/// With `skip_blank` the patterns kept are those that count; without it, all.
proof fn lemma_kept_all(all: Seq<Seq<char>>, skip_blank: bool)
    ensures
        all.filter(|p: Seq<char>| !skip_blank || !is_blank(p)) == counted(all, skip_blank),
    decreases all.len(),
{
    reveal(Seq::filter);
    let keep = |p: Seq<char>| !skip_blank || !is_blank(p);
    let counts = |p: Seq<char>| !is_blank(p);
    if all.len() > 0 {
        lemma_kept_all(all.drop_last(), skip_blank);
        if skip_blank {
            assert(keep(all.last()) == counts(all.last()));
        } else {
            assert(all.drop_last().push(all.last()) =~= all);
        }
    } else {
        assert(all.filter(keep) =~= all);
    }
    if skip_blank {
        assert(all.filter(keep) == all.filter(counts));
    }
}

/// Appending a pattern to patterns that all parse: the first invalid one is
/// the new one, or none.
proof fn lemma_first_invalid_push(done: Seq<Seq<char>>, pattern: Seq<char>)
    requires
        first_invalid(done) is None,
    ensures
        first_invalid(done.push(pattern)) == (if glob_outcome(pattern) is Err {
            Some(done.len() as int)
        } else {
            None
        }),
    decreases done.len(),
{
    if done.len() == 0 {
        assert(done.push(pattern).drop_first() =~= done);
    } else {
        assert(done.push(pattern).drop_first() =~= done.drop_first().push(pattern));
        lemma_first_invalid_push(done.drop_first(), pattern);
    }
}

/// The first invalid pattern of a list is that of any prefix that has one.
proof fn lemma_first_invalid_prefix(head: Seq<Seq<char>>, tail: Seq<Seq<char>>)
    requires
        first_invalid(head) is Some,
    ensures
        first_invalid(head + tail) == first_invalid(head),
        (head + tail)[first_invalid(head)->0] == head[first_invalid(head)->0],
    decreases head.len(),
{
    lemma_first_invalid(head);
    if glob_outcome(head[0]) is Err {
    } else {
        assert((head + tail).drop_first() =~= head.drop_first() + tail);
        lemma_first_invalid_prefix(head.drop_first(), tail);
    }
}

/// The text of the error for a pattern that did not parse: `prefix`, the
/// pattern in quotes, a colon and what the parser said.
pub open spec fn invalid_glob_text(prefix: Seq<char>, pattern: Seq<char>, error: globset::Error)
    -> Seq<char> {
    prefix + "'"@ + pattern + "': "@ + glob_error_message(error)
}

pub(crate) fn invalid_glob_error(prefix: &str, bad: &InvalidGlob) -> (e: TalosError)
    ensures
        e@ == ErrorView::ScanError(invalid_glob_text(prefix@, bad.pattern@, bad.error)),
{
    let quoted = joined(prefix, "'");
    let with_pattern = joined(quoted.as_str(), bad.pattern.as_str());
    let with_colon = joined(with_pattern.as_str(), "': ");
    let detail = glob_error_text(&bad.error);
    TalosError::ScanError(joined(with_colon.as_str(), detail.as_str()))
}

/// What building the set of the take-in patterns gives. Without patterns
/// there is no set and every path is taken in. Otherwise the blank patterns
/// are passed over; the first of the others that does not parse is an error,
/// and so is a set that cannot be built.
pub open spec fn include_set_outcome(includes: Seq<Seq<char>>) -> Result<
    Option<GlobSet>,
    ErrorView,
> {
    if includes.len() == 0 {
        Ok(None)
    } else {
        let wanted = kept_patterns(includes);
        match first_invalid(wanted) {
            Some(i) => Err(
                ErrorView::ScanError(
                    invalid_glob_text(
                        "Invalid include glob "@,
                        wanted[i],
                        glob_outcome(wanted[i]).unwrap_err(),
                    ),
                ),
            ),
            None => match build_outcome(wanted) {
                Ok(set) => Ok(Some(set)),
                Err(e) => Err(
                    ErrorView::ScanError(
                        "Failed to build include globset: "@ + glob_error_message(e),
                    ),
                ),
            },
        }
    }
}

/// What building the set of the leave-out patterns gives: the set of the
/// default patterns followed by the user's patterns that are not blank. The
/// first pattern that does not parse is an error, and so is a set that
/// cannot be built.
pub open spec fn exclude_set_outcome(excludes: Seq<Seq<char>>) -> Result<GlobSet, ErrorView> {
    let wanted = kept_patterns(excludes);
    match first_invalid(default_excludes()) {
        Some(i) => Err(
            ErrorView::ScanError(
                "Invalid default exclude pattern: "@ + glob_error_message(
                    glob_outcome(default_excludes()[i]).unwrap_err(),
                ),
            ),
        ),
        None => match first_invalid(wanted) {
            Some(i) => Err(
                ErrorView::ScanError(
                    invalid_glob_text(
                        "Invalid exclude glob "@,
                        wanted[i],
                        glob_outcome(wanted[i]).unwrap_err(),
                    ),
                ),
            ),
            None => match build_outcome(default_excludes() + wanted) {
                Ok(set) => Ok(set),
                Err(e) => Err(
                    ErrorView::ScanError(
                        "Failed to build exclude globset: "@ + glob_error_message(e),
                    ),
                ),
            },
        },
    }
}

/// A result with an error, as specifications see it.
pub open spec fn result_view<T>(r: TalosResult<T>) -> Result<T, ErrorView> {
    match r {
        Ok(v) => Ok(v),
        Err(e) => Err(e@),
    }
}

/// Builds the set of the patterns that take paths in.
pub fn build_include_globset(includes: &GlobPatterns) -> (r: TalosResult<Option<GlobSet>>)
    ensures
        result_view(r) == include_set_outcome(includes@),
        r matches Ok(set) ==> patterns_of(set) == taken_in(includes@),
{
    if includes.is_empty() {
        return Ok(None);
    }
    let patterns = includes.to_vec();
    let mut builder = new_builder();
    assert(builder_patterns(builder) =~= Seq::<Seq<char>>::empty());
    if let Err(bad) = add_patterns(&mut builder, &patterns, true) {
        return Err(invalid_glob_error("Invalid include glob ", &bad));
    }
    assert(Seq::<Seq<char>>::empty() + kept_patterns(includes@) =~= kept_patterns(includes@));
    match build_set(&builder) {
        Ok(set) => Ok(Some(set)),
        Err(e) => {
            let detail = glob_error_text(&e);
            Err(
                TalosError::ScanError(
                    joined("Failed to build include globset: ", detail.as_str()),
                ),
            )
        },
    }
}

/// Builds the set of the patterns that leave paths out: the defaults and the
/// user's.
pub fn build_exclude_globset(excludes: &GlobPatterns) -> (r: TalosResult<GlobSet>)
    ensures
        result_view(r) == exclude_set_outcome(excludes@),
        r matches Ok(set) ==> set_patterns(set) == left_out(excludes@),
{
    let mut builder = new_builder();
    assert(builder_patterns(builder) =~= Seq::<Seq<char>>::empty());
    let defaults = default_exclude_patterns();
    if let Err(bad) = add_patterns(&mut builder, &defaults, false) {
        let detail = glob_error_text(&bad.error);
        return Err(
            TalosError::ScanError(joined("Invalid default exclude pattern: ", detail.as_str())),
        );
    }
    assert(Seq::<Seq<char>>::empty() + default_excludes() =~= default_excludes());
    let patterns = excludes.to_vec();
    if let Err(bad) = add_patterns(&mut builder, &patterns, true) {
        return Err(invalid_glob_error("Invalid exclude glob ", &bad));
    }
    match build_set(&builder) {
        Ok(set) => Ok(set),
        Err(e) => {
            let detail = glob_error_text(&e);
            Err(
                TalosError::ScanError(
                    joined("Failed to build exclude globset: ", detail.as_str()),
                ),
            )
        },
    }
}

/// The patterns of a set that may be absent.
pub open spec fn patterns_of(set: Option<GlobSet>) -> Option<Seq<Seq<char>>> {
    match set {
        Some(set) => Some(set_patterns(set)),
        None => None,
    }
}

/// The patterns that take paths in: none where the user gave none, else the
/// user's patterns that are not blank.
pub open spec fn taken_in(includes: Seq<Seq<char>>) -> Option<Seq<Seq<char>>> {
    if includes.len() == 0 {
        None
    } else {
        Some(kept_patterns(includes))
    }
}

/// The patterns that leave paths out: the defaults, then the user's patterns
/// that are not blank.
pub open spec fn left_out(excludes: Seq<Seq<char>>) -> Seq<Seq<char>> {
    default_excludes() + kept_patterns(excludes)
}

/// What building both sets gives: the two sets, or the error of the take-in
/// patterns where they fail, else that of the leave-out patterns.
pub open spec fn sets_outcome(includes: Seq<Seq<char>>, excludes: Seq<Seq<char>>) -> Result<
    (Option<GlobSet>, GlobSet),
    ErrorView,
> {
    match include_set_outcome(includes) {
        Err(e) => Err(e),
        Ok(include_set) => match exclude_set_outcome(excludes) {
            Err(e) => Err(e),
            Ok(exclude_set) => Ok((include_set, exclude_set)),
        },
    }
}

/// Builds both sets; the take-in patterns are looked at first.
pub fn build_globsets(includes: &GlobPatterns, excludes: &GlobPatterns) -> (r: TalosResult<
    (Option<GlobSet>, GlobSet),
>)
    ensures
        result_view(r) == sets_outcome(includes@, excludes@),
        r matches Ok(sets) ==> patterns_of(sets.0) == taken_in(includes@),
        r matches Ok(sets) ==> set_patterns(sets.1) == left_out(excludes@),
{
    let include_set = match build_include_globset(includes) {
        Ok(set) => set,
        Err(e) => {
            return Err(e);
        },
    };
    let exclude_set = match build_exclude_globset(excludes) {
        Ok(set) => set,
        Err(e) => {
            return Err(e);
        },
    };
    Ok((include_set, exclude_set))
}

/// Whether the filters let a path through: no leave-out pattern matches it,
/// and, where there are take-in patterns, one of them does.
pub open spec fn passes(
    path: Seq<char>,
    includes: Option<Seq<Seq<char>>>,
    excludes: Seq<Seq<char>>,
) -> bool {
    !matches_any(excludes, path) && match includes {
        Some(patterns) => matches_any(patterns, path),
        None => true,
    }
}

/// Whether the two sets let a path through.
pub(crate) fn included(path: &str, includes: Option<&GlobSet>, excludes: &GlobSet) -> (r: bool)
    ensures
        r == passes(
            path@,
            match includes {
                Some(set) => Some(set_patterns(*set)),
                None => None,
            },
            set_patterns(*excludes),
        ),
{
    if set_matches(excludes, path) {
        return false;
    }
    if let Some(gs) = includes {
        return set_matches(gs, path);
    }
    true
}

/// The path filter of a scan: the set of the patterns that take paths in,
/// where there are any, and the set of those that leave paths out.
pub struct PathFilter {
    include_set: Option<GlobSet>,
    exclude_set: GlobSet,
}

impl PathFilter {
    /// The patterns that take paths in, if there are any.
    pub closed spec fn includes(&self) -> Option<Seq<Seq<char>>> {
        patterns_of(self.include_set)
    }

    /// The patterns that leave paths out.
    pub closed spec fn excludes(&self) -> Seq<Seq<char>> {
        set_patterns(self.exclude_set)
    }

    /// Builds the filter of the user's patterns. It fails where a pattern
    /// does not parse or a set cannot be built, the take-in patterns being
    /// looked at first.
    pub fn build(includes: &GlobPatterns, excludes: &GlobPatterns) -> (r: TalosResult<PathFilter>)
        ensures
            r is Ok <==> sets_outcome(includes@, excludes@) is Ok,
            r matches Err(e) ==> sets_outcome(includes@, excludes@) matches Err(cause) && cause
                == e@,
            r matches Ok(filter) ==> filter.includes() == taken_in(includes@),
            r matches Ok(filter) ==> filter.excludes() == left_out(excludes@),
    {
        match build_globsets(includes, excludes) {
            Ok((include_set, exclude_set)) => Ok(PathFilter { include_set, exclude_set }),
            Err(e) => Err(e),
        }
    }

    /// Whether the filter lets a path through.
    pub fn included(&self, path: &str) -> (r: bool)
        ensures
            r == passes(path@, self.includes(), self.excludes()),
    {
        included(path, self.include_set.as_ref(), &self.exclude_set)
    }
}

} // verus!
