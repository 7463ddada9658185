//! Sets of glob patterns, compiled once and matched many times.
//!
//! Parsing and matching are done by the `globset` crate. What this module
//! takes on trust about that crate is gathered in its first half; every item
//! there names the function of `globset` that it stands for. Every glob here
//! is made by `Glob::new`, that is, with the crate's default options, so a
//! glob is known by its pattern text. What that crate answers for a text is
//! the same on every run, but is its own for each target platform: where `\`
//! separates paths it does not escape.

use vstd::prelude::*;
use globset::{Glob, GlobSet, GlobSetBuilder};
use crate::text::views;

verus! {

#[verifier::external_type_specification]
#[verifier::external_body]
pub struct ExGlob(globset::Glob);

#[verifier::external_type_specification]
#[verifier::external_body]
pub struct ExGlobSetBuilder(globset::GlobSetBuilder);

#[verifier::external_type_specification]
#[verifier::external_body]
pub struct ExGlobSet(globset::GlobSet);

#[verifier::external_type_specification]
#[verifier::external_body]
pub struct ExGlobError(globset::Error);

/// Whether `globset::Glob::new` accepts `pattern` as a glob.
pub uninterp spec fn glob_parses(pattern: Seq<char>) -> bool;

/// The pattern text that a parsed glob was made from: what
/// `globset::Glob::glob` returns.
pub uninterp spec fn glob_source(glob: Glob) -> Seq<char>;

/// The pattern texts of the globs that a builder holds, in the order in which
/// they were added.
pub uninterp spec fn builder_sources(builder: GlobSetBuilder) -> Seq<Seq<char>>;

/// Whether `globset::GlobSetBuilder::build` succeeds for a builder that holds
/// the globs parsed from `patterns`.
pub uninterp spec fn glob_set_compiles(patterns: Seq<Seq<char>>) -> bool;

/// The pattern texts of the globs that a set was built from, in order.
pub uninterp spec fn set_sources(set: GlobSet) -> Seq<Seq<char>>;

/// Whether the glob parsed from `pattern` with the default options matches the
/// path `candidate`, in the sense in which `globset::GlobSet::is_match` speaks
/// of a glob of the set matching a path.
pub uninterp spec fn glob_matches(pattern: Seq<char>, candidate: Seq<char>) -> bool;

/// `globset::Glob::new`. Taken on trust: whether it returns `Ok` depends on
/// the pattern text alone, and the glob it returns remembers that text.
#[verifier::external_body]
fn parse_glob(pattern: &str) -> (r: Result<Glob, globset::Error>)
    ensures
        r is Ok <==> glob_parses(pattern@),
        r matches Ok(glob) ==> glob_source(glob) == pattern@,
{
    Glob::new(pattern)
}

/// `globset::GlobSetBuilder::new`. Taken on trust: the new builder holds no
/// glob.
#[verifier::external_body]
fn new_builder() -> (builder: GlobSetBuilder)
    ensures
        builder_sources(builder) == Seq::<Seq<char>>::empty(),
{
    GlobSetBuilder::new()
}

/// `globset::GlobSetBuilder::add`. Taken on trust: the glob is appended to
/// those the builder holds.
#[verifier::external_body]
fn add_glob(builder: &mut GlobSetBuilder, glob: Glob)
    ensures
        builder_sources(*final(builder)) == builder_sources(*old(builder)).push(glob_source(glob)),
{
    builder.add(glob);
}

/// `globset::GlobSetBuilder::build`. Taken on trust: whether it returns `Ok`
/// depends on the globs alone, it does so for a builder without globs, and
/// the set it returns is made of the builder's globs.
#[verifier::external_body]
fn build_set(builder: &GlobSetBuilder) -> (r: Result<GlobSet, globset::Error>)
    ensures
        r is Ok <==> glob_set_compiles(builder_sources(*builder)),
        builder_sources(*builder).len() == 0 ==> r is Ok,
        r matches Ok(set) ==> set_sources(set) == builder_sources(*builder),
{
    builder.build()
}

/// `globset::GlobSet::is_match`. Taken on trust: it returns true when some
/// glob of the set matches the path, and false otherwise.
#[verifier::external_body]
fn set_is_match(set: &GlobSet, candidate: &str) -> (b: bool)
    ensures
        b == (exists|i: int|
            0 <= i < set_sources(*set).len() && glob_matches(
                #[trigger] set_sources(*set)[i],
                candidate@,
            )),
{
    set.is_match(candidate)
}

/// The `Display` text of a `globset::Error`. Nothing is claimed of it.
#[verifier::external_body]
fn describe_error(error: &globset::Error) -> (text: String) {
    error.to_string()
}

/// Whether some pattern of `patterns` matches `candidate`.
pub open spec fn matches_any(patterns: Seq<Seq<char>>, candidate: Seq<char>) -> bool {
    exists|i: int| 0 <= i < patterns.len() && glob_matches(#[trigger] patterns[i], candidate)
}

/// Whether every pattern of `patterns` is a well-formed glob.
pub open spec fn all_parse(patterns: Seq<Seq<char>>) -> bool {
    forall|i: int| 0 <= i < patterns.len() ==> glob_parses(#[trigger] patterns[i])
}

/// Whether a list of patterns compiles into a set: every pattern is a
/// well-formed glob, and the set as a whole is accepted.
pub open spec fn compiles(patterns: Seq<Seq<char>>) -> bool {
    all_parse(patterns) && glob_set_compiles(patterns)
}

/// A compiled set of glob patterns. Its view is the list of pattern texts it
/// was compiled from.
#[derive(Debug)]
pub struct PatternSet {
    set: GlobSet,
}

impl View for PatternSet {
    type V = Seq<Seq<char>>;

    closed spec fn view(&self) -> Seq<Seq<char>> {
        set_sources(self.set)
    }
}

/// Why a list of patterns could not be compiled.
#[derive(Debug, PartialEq, Eq)]
pub enum PatternError {
    /// The pattern at `index` is not a well-formed glob; all before it are.
    Syntax { index: usize, message: String },
    /// Every pattern is well formed, but the set as a whole was refused.
    Compile { message: String },
}

impl PatternError {
    /// The description that the glob library gave of the failure.
    pub fn message(&self) -> (text: &String)
        ensures
            text == match *self {
                PatternError::Syntax { message, .. } => message,
                PatternError::Compile { message } => message,
            },
    {
        match self {
            PatternError::Syntax { message, .. } => message,
            PatternError::Compile { message } => message,
        }
    }
}

impl PatternSet {
    /// Tests `candidate` against all patterns of the set at once.
    pub fn is_match(&self, candidate: &str) -> (b: bool)
        ensures
            b == matches_any(self@, candidate@),
    {
        set_is_match(&self.set, candidate)
    }
}

/// Compiles a list of glob patterns into one set. Either every pattern is
/// compiled or none: the first ill-formed pattern fails the whole list.
pub fn build_globset(patterns: &[String]) -> (r: Result<PatternSet, PatternError>)
    ensures
        r is Ok <==> compiles(views(patterns@)),
        match r {
            Ok(set) => set@ == views(patterns@),
            Err(PatternError::Syntax { index, .. }) => index < patterns.len() && !glob_parses(
                patterns[index as int]@,
            ) && all_parse(views(patterns@).take(index as int)),
            Err(PatternError::Compile { .. }) => all_parse(views(patterns@)),
        },
        patterns.len() == 0 ==> r is Ok,
{
    let mut builder = new_builder();
    let mut i: usize = 0;
    while i < patterns.len()
        invariant
            i <= patterns.len(),
            builder_sources(builder) == views(patterns@).take(i as int),
            all_parse(views(patterns@).take(i as int)),
        decreases patterns.len() - i,
    {
        match parse_glob(patterns[i].as_str()) {
            Ok(glob) => {
                add_glob(&mut builder, glob);
            },
            Err(error) => {
                assert(views(patterns@)[i as int] == patterns[i as int]@);
                return Err(PatternError::Syntax { index: i, message: describe_error(&error) });
            },
        }
        i = i + 1;
    }
    assert(views(patterns@).take(i as int) == views(patterns@));
    match build_set(&builder) {
        Ok(set) => Ok(PatternSet { set }),
        Err(error) => Err(PatternError::Compile { message: describe_error(&error) }),
    }
}

/// A set without patterns matches nothing.
pub proof fn lemma_empty_set_matches_nothing(candidate: Seq<char>)
    ensures
        !matches_any(Seq::empty(), candidate),
{
}

} // verus!
