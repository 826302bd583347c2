//! Pattern matcher: a compiled, read-only set of name patterns.
//!
//! A matcher is one of three variants: match-everything (no patterns were
//! given), a glob set, or a regex set over raw bytes. Globs and regexes are
//! compiled and matched by the `globset` and `regex` crates behind trusted
//! wrappers; what a compiled set holds and what a match returns are named by
//! uninterpreted spec functions, so every contract above the wrappers is
//! exact in terms of those names.

use vstd::prelude::*;

verus! {

#[verifier::external_type_specification]
#[verifier::external_body]
pub struct ExGlobSet(globset::GlobSet);

#[verifier::external_type_specification]
#[verifier::external_body]
pub struct ExGlobSetBuilder(globset::GlobSetBuilder);

#[verifier::external_type_specification]
#[verifier::external_body]
pub struct ExGlobError(globset::Error);

#[verifier::external_type_specification]
#[verifier::external_body]
pub struct ExRegexSet(regex::bytes::RegexSet);

#[verifier::external_type_specification]
#[verifier::external_body]
pub struct ExRegexError(regex::Error);

/// Whether `globset::GlobBuilder::build` accepts `pat` as a glob when built
/// with case-insensitivity `ci`.
pub uninterp spec fn glob_ok(pat: Seq<char>, ci: bool) -> bool;

/// The (pattern, case-insensitive) entries compiled into a glob set builder.
pub uninterp spec fn glob_builder_globs(b: globset::GlobSetBuilder) -> Seq<(Seq<char>, bool)>;

/// The (pattern, case-insensitive) entries a built glob set holds.
pub uninterp spec fn glob_set_globs(s: globset::GlobSet) -> Seq<(Seq<char>, bool)>;

/// Whether `globset::GlobSetBuilder::build` succeeds on these entries.
pub uninterp spec fn glob_set_build_ok(globs: Seq<(Seq<char>, bool)>) -> bool;

/// What `globset::GlobSet::is_match` returns for these entries and a name.
pub uninterp spec fn glob_seq_match(globs: Seq<(Seq<char>, bool)>, name: Seq<u8>) -> bool;

/// Whether `regex::bytes::RegexBuilder::build` accepts `pat` when built with
/// case-insensitivity `ci`.
pub uninterp spec fn regex_ok(pat: Seq<char>, ci: bool) -> bool;

/// Whether `regex::bytes::RegexSetBuilder::build` succeeds on these patterns
/// with case-insensitivity `ci`.
pub uninterp spec fn regex_set_ok(pats: Seq<Seq<char>>, ci: bool) -> bool;

/// The patterns a built regex set holds.
pub uninterp spec fn regex_set_patterns(s: regex::bytes::RegexSet) -> Seq<Seq<char>>;

/// The case-insensitivity a regex set was built with.
pub uninterp spec fn regex_set_ci(s: regex::bytes::RegexSet) -> bool;

/// What `regex::bytes::RegexSet::is_match` returns for these patterns, this
/// case-insensitivity and a haystack.
pub uninterp spec fn regex_seq_match(pats: Seq<Seq<char>>, ci: bool, name: Seq<u8>) -> bool;

/// Relies on globset::GlobSetBuilder::new: a fresh builder holds no globs.
#[verifier::external_body]
fn glob_builder_new() -> (b: globset::GlobSetBuilder)
    ensures
        glob_builder_globs(b) == Seq::<(Seq<char>, bool)>::empty(),
{
    globset::GlobSetBuilder::new()
}

/// Relies on globset::GlobBuilder::new / case_insensitive / build, which
/// parse one pattern and fail exactly on a syntactically invalid glob, and
/// on globset::GlobSetBuilder::add, which appends the compiled glob. The
/// calls stand together because a compiled `Glob` value has no contents name
/// of its own here.
#[verifier::external_body]
fn glob_builder_add(b: &mut globset::GlobSetBuilder, pat: &String, ci: bool) -> (r: Result<
    (),
    globset::Error,
>)
    ensures
        r is Ok <==> glob_ok(pat@, ci),
        r is Ok ==> glob_builder_globs(*final(b)) == glob_builder_globs(*old(b)).push((pat@, ci)),
        r is Err ==> glob_builder_globs(*final(b)) == glob_builder_globs(*old(b)),
{
    match globset::GlobBuilder::new(pat).case_insensitive(ci).build() {
        Ok(g) => {
            b.add(g);
            Ok(())
        },
        Err(e) => Err(e),
    }
}

/// Relies on globset::GlobSetBuilder::build: on success the set holds
/// exactly the globs added so far, and success depends on those globs alone.
#[verifier::external_body]
fn glob_builder_build(b: &globset::GlobSetBuilder) -> (r: Result<globset::GlobSet, globset::Error>)
    ensures
        r is Ok <==> glob_set_build_ok(glob_builder_globs(*b)),
        r matches Ok(s) ==> glob_set_globs(s) == glob_builder_globs(*b),
{
    b.build()
}

/// Relies on globset::GlobSet::is_match: whether any glob of the set matches
/// is a function of the set's entries and the name alone. The raw name bytes
/// are handed over through a lossy UTF-8 decoding, the same road the crate
/// itself takes where paths are not raw bytes.
#[verifier::external_body]
fn glob_set_is_match(s: &globset::GlobSet, name: &[u8]) -> (r: bool)
    ensures
        r == glob_seq_match(glob_set_globs(*s), name@),
{
    let text = String::from_utf8_lossy(name);
    s.is_match(&*text)
}

/// Relies on regex::bytes::RegexSetBuilder::new / case_insensitive / build:
/// building compiles the patterns with the configured case-insensitivity,
/// and both success and the compiled set depend on patterns and flag alone.
#[verifier::external_body]
fn regex_set_build(pats: &Vec<String>, ci: bool) -> (r: Result<
    regex::bytes::RegexSet,
    regex::Error,
>)
    ensures
        r is Ok <==> regex_set_ok(pats@.map_values(|p: String| p@), ci),
        r matches Ok(s) ==> regex_set_patterns(s) == pats@.map_values(|p: String| p@)
            && regex_set_ci(s) == ci,
{
    regex::bytes::RegexSetBuilder::new(pats).case_insensitive(ci).build()
}

/// Relies on regex::bytes::RegexBuilder::new / case_insensitive / build:
/// whether one pattern compiles depends on the pattern and the flag alone.
#[verifier::external_body]
fn regex_pattern_ok(pat: &String, ci: bool) -> (r: bool)
    ensures
        r == regex_ok(pat@, ci),
{
    regex::bytes::RegexBuilder::new(pat).case_insensitive(ci).build().is_ok()
}

/// Relies on regex::bytes::RegexSet::is_match: whether any pattern of the
/// set matches the byte haystack is a function of the set's patterns, its
/// case-insensitivity and the haystack alone.
#[verifier::external_body]
fn regex_set_is_match(s: &regex::bytes::RegexSet, name: &[u8]) -> (r: bool)
    ensures
        r == regex_seq_match(regex_set_patterns(*s), regex_set_ci(*s), name@),
{
    s.is_match(name)
}

/// A compiled pattern set. With no patterns every name matches; otherwise a
/// name matches if at least one glob or regex of the set matches it.
pub enum Pattern {
    Empty,
    Glob(globset::GlobSet),
    Regex(regex::bytes::RegexSet),
}

/// Why a pattern set could not be compiled.
#[derive(Debug)]
pub enum PatternError {
    /// A pattern was not a syntactically valid glob.
    InvalidGlob { pattern: String },
    /// Every glob compiled, but combining them into one set failed.
    GlobSetBuild,
    /// A pattern was not a valid regex.
    InvalidRegex { pattern: String },
    /// Combining the regexes into one set failed, though each pattern alone
    /// is valid.
    RegexSetBuild,
}

pub open spec fn pats_view(pats: Seq<String>) -> Seq<Seq<char>> {
    pats.map_values(|p: String| p@)
}

pub open spec fn glob_entries(pats: Seq<Seq<char>>, ci: bool) -> Seq<(Seq<char>, bool)> {
    pats.map_values(|p: Seq<char>| (p, ci))
}

/// Whether compiling `pats` as a glob set with case-insensitivity `ci`
/// succeeds: every pattern is a valid glob, and the combined set builds.
pub open spec fn glob_new_ok(pats: Seq<Seq<char>>, ci: bool) -> bool {
    (forall|k: int| 0 <= k < pats.len() ==> glob_ok(#[trigger] pats[k], ci)) && glob_set_build_ok(
        glob_entries(pats, ci),
    )
}

/// Whether `name` matches the compiled pattern set.
pub open spec fn spec_is_match(p: Pattern, name: Seq<u8>) -> bool {
    match p {
        Pattern::Empty => true,
        Pattern::Glob(gs) => glob_seq_match(glob_set_globs(gs), name),
        Pattern::Regex(rs) => regex_seq_match(regex_set_patterns(rs), regex_set_ci(rs), name),
    }
}

/// A compilation error names a pattern of the input that is itself invalid,
/// or says that only the combined set failed to build.
pub open spec fn error_describes(e: PatternError, pats: Seq<Seq<char>>, use_glob: bool, ci: bool) -> bool {
    match e {
        PatternError::InvalidGlob { pattern } => use_glob && !glob_ok(pattern@, ci)
            && pats.contains(pattern@),
        PatternError::GlobSetBuild => use_glob && !glob_set_build_ok(glob_entries(pats, ci)),
        PatternError::InvalidRegex { pattern } => !use_glob && !regex_ok(pattern@, ci)
            && pats.contains(pattern@),
        PatternError::RegexSetBuild => !use_glob,
    }
}

/// Everything `Pattern::new` promises of its result, over the pattern views.
pub open spec fn compile_post(
    r: Result<Pattern, PatternError>,
    pats: Seq<Seq<char>>,
    use_glob: bool,
    ci: bool,
) -> bool {
    match r {
        Ok(p) => match p {
            Pattern::Empty => pats.len() == 0,
            Pattern::Glob(gs) => pats.len() > 0 && use_glob && glob_new_ok(pats, ci)
                && glob_set_globs(gs) == glob_entries(pats, ci),
            Pattern::Regex(rs) => pats.len() > 0 && !use_glob && regex_set_ok(pats, ci)
                && regex_set_patterns(rs) == pats && regex_set_ci(rs) == ci,
        },
        Err(e) => pats.len() > 0 && (if use_glob {
            !glob_new_ok(pats, ci)
        } else {
            !regex_set_ok(pats, ci)
        }) && error_describes(e, pats, use_glob, ci),
    }
}

impl Pattern {
    /// Compile the user patterns into a matcher. Zero patterns yield the
    /// match-everything matcher; otherwise each pattern is compiled as a
    /// glob or a regex, case-insensitively unless `case_sensitive` is set,
    /// and the result matches a name when any pattern does.
    pub fn new(patterns: &Vec<String>, use_glob: bool, case_sensitive: bool) -> (r: Result<
        Pattern,
        PatternError,
    >)
        ensures
            compile_post(r, pats_view(patterns@), use_glob, !case_sensitive),
            patterns@.len() == 0 ==> (r matches Ok(p) && forall|name: Seq<u8>|
                spec_is_match(p, name)),
    {
        let ci = !case_sensitive;
        let ghost pats = pats_view(patterns@);
        if patterns.len() == 0 {
            return Ok(Pattern::Empty);
        }
        if use_glob {
            let ghost entries = glob_entries(pats, ci);
            let mut b = glob_builder_new();
            let mut k: usize = 0;
            proof {
                assert(glob_builder_globs(b) =~= entries.take(0));
            }
            while k < patterns.len()
                invariant
                    use_glob,
                    ci == !case_sensitive,
                    patterns@.len() > 0,
                    k <= patterns@.len(),
                    pats == pats_view(patterns@),
                    entries == glob_entries(pats, ci),
                    glob_builder_globs(b) == entries.take(k as int),
                    forall|j: int| 0 <= j < k ==> glob_ok(#[trigger] pats[j], ci),
                decreases patterns@.len() - k,
            {
                match glob_builder_add(&mut b, &patterns[k], ci) {
                    Ok(_) => {
                        proof {
                            assert(entries.take(k + 1) =~= entries.take(k as int).push(
                                (pats[k as int], ci),
                            ));
                        }
                    },
                    Err(_) => {
                        let cl = patterns[k].clone();
                        proof {
                            assert(pats[k as int] == patterns@[k as int]@);
                            assert(!glob_ok(cl@, ci));
                            assert(pats.contains(cl@)) by {
                                assert(pats[k as int] == cl@);
                            }
                            assert(pats.len() > 0);
                            assert(!glob_new_ok(pats, ci));
                        }
                        return Err(PatternError::InvalidGlob { pattern: cl });
                    },
                }
                k = k + 1;
            }
            proof {
                assert(entries.take(patterns@.len() as int) =~= entries);
            }
            match glob_builder_build(&b) {
                Ok(gs) => Ok(Pattern::Glob(gs)),
                Err(_) => Err(PatternError::GlobSetBuild),
            }
        } else {
            match regex_set_build(patterns, ci) {
                Ok(rs) => Ok(Pattern::Regex(rs)),
                Err(_) => {
                    let mut k: usize = 0;
                    while k < patterns.len()
                        invariant
                            !use_glob,
                            ci == !case_sensitive,
                            patterns@.len() > 0,
                            k <= patterns@.len(),
                            pats == pats_view(patterns@),
                            !regex_set_ok(pats, ci),
                            forall|j: int| 0 <= j < k ==> regex_ok(#[trigger] pats[j], ci),
                        decreases patterns@.len() - k,
                    {
                        if !regex_pattern_ok(&patterns[k], ci) {
                            let cl = patterns[k].clone();
                            proof {
                                assert(pats[k as int] == patterns@[k as int]@);
                                assert(!regex_ok(cl@, ci));
                                assert(pats.contains(cl@)) by {
                                    assert(pats[k as int] == cl@);
                                }
                                assert(pats.len() > 0);
                            }
                            return Err(PatternError::InvalidRegex { pattern: cl });
                        }
                        k = k + 1;
                    }
                    Err(PatternError::RegexSetBuild)
                },
            }
        }
    }

    /// Whether `name` matches this pattern set.
    pub fn is_match(&self, name: &[u8]) -> (r: bool)
        ensures
            r == spec_is_match(*self, name@),
    {
        match self {
            Pattern::Empty => true,
            Pattern::Glob(gs) => glob_set_is_match(gs, name),
            Pattern::Regex(rs) => regex_set_is_match(rs, name),
        }
    }
}

} // verus!
