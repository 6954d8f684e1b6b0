//! The two matching engines behind a pattern set: the regex engine and the
//! glob-set engine. What they compute is not proved here; each item states
//! what is taken on trust.

use vstd::prelude::*;

verus! {

/// `regex::Regex`: a compiled regex, carried through as it is.
#[verifier::external_type_specification]
#[verifier::external_body]
pub struct ExRegex(regex::Regex);

/// `globset::Glob`: a parsed glob, carried through as it is.
#[verifier::external_type_specification]
#[verifier::external_body]
pub struct ExGlob(globset::Glob);

/// `globset::GlobSet`: one matcher for many globs, carried through as it
/// is.
#[verifier::external_type_specification]
#[verifier::external_body]
pub struct ExGlobSet(globset::GlobSet);

/// `globset::GlobSetBuilder`: the globs gathered for a glob set.
#[verifier::external_type_specification]
#[verifier::external_body]
pub struct ExGlobSetBuilder(globset::GlobSetBuilder);

/// `globset::Error`: why a glob does not parse or a set does not build.
#[verifier::external_type_specification]
#[verifier::external_body]
pub struct ExGlobError(globset::Error);

/// What compiling the regex source `source` gives.
pub uninterp spec fn regex_compiled(source: Seq<char>) -> Result<regex::Regex, regex::Error>;

/// Whether the regex `re` finds a match somewhere in `text`.
pub uninterp spec fn regex_matches(re: regex::Regex, text: Seq<char>) -> bool;

/// What parsing the glob `pattern` gives.
pub uninterp spec fn glob_parsed(pattern: Seq<char>) -> Result<globset::Glob, globset::Error>;

/// The globs that were added to `builder`, in order.
pub uninterp spec fn builder_globs(builder: globset::GlobSetBuilder) -> Seq<globset::Glob>;

/// What building one matcher from `globs` gives.
pub uninterp spec fn globset_built(globs: Seq<globset::Glob>) -> Result<
    globset::GlobSet,
    globset::Error,
>;

/// Whether `set` was built from no glob at all.
pub uninterp spec fn globset_is_empty(set: globset::GlobSet) -> bool;

/// Whether some glob of `set` matches `path`.
pub uninterp spec fn globset_matches(set: globset::GlobSet, path: Seq<char>) -> bool;

/// The text that describes the glob error `e`.
pub uninterp spec fn glob_error_text(e: globset::Error) -> Seq<char>;

/// `regex::Regex::new` compiles a source with the engine's default
/// options; the outcome depends on the source alone.
pub assume_specification[ regex::Regex::new ](re: &str) -> (r: Result<regex::Regex, regex::Error>)
    ensures
        r == regex_compiled(re@),
;

/// `regex::Regex::is_match` searches the whole haystack; the answer
/// depends on the regex and the haystack alone.
pub assume_specification[ regex::Regex::is_match ](re: &regex::Regex, haystack: &str) -> (b: bool)
    ensures
        b == regex_matches(*re, haystack@),
;

/// A clone of a `regex::Regex` is the same regex.
pub assume_specification[ <regex::Regex as Clone>::clone ](re: &regex::Regex) -> (r: regex::Regex)
    ensures
        r == *re,
;

/// `globset::Glob::new` parses a glob with default options; the outcome
/// depends on the pattern alone.
pub assume_specification[ globset::Glob::new ](glob: &str) -> (r: Result<
    globset::Glob,
    globset::Error,
>)
    ensures
        r == glob_parsed(glob@),
;

/// `globset::GlobSetBuilder::new` starts with no glob.
pub assume_specification[ globset::GlobSetBuilder::new ]() -> (b: globset::GlobSetBuilder)
    ensures
        builder_globs(b) == Seq::<globset::Glob>::empty(),
;

/// `globset::GlobSetBuilder::build` builds one matcher from the globs added
/// so far. From no glob it gives the empty set, and no other set that it
/// gives is empty.
pub assume_specification[ globset::GlobSetBuilder::build ](
    builder: &globset::GlobSetBuilder,
) -> (r: Result<globset::GlobSet, globset::Error>)
    ensures
        r == globset_built(builder_globs(*builder)),
        r matches Ok(set) ==> globset_is_empty(set) == (builder_globs(*builder).len() == 0),
        builder_globs(*builder).len() == 0 ==> r is Ok,
;

/// `globset::GlobSet::is_empty` tells whether the set was built from no
/// glob.
pub assume_specification[ globset::GlobSet::is_empty ](set: &globset::GlobSet) -> (b: bool)
    ensures
        b == globset_is_empty(*set),
;

/// A clone of a `globset::GlobSet` is the same set.
pub assume_specification[ <globset::GlobSet as Clone>::clone ](set: &globset::GlobSet) -> (r:
    globset::GlobSet)
    ensures
        r == *set,
;

/// `globset::GlobSetBuilder::add` puts one more glob after those added
/// before.
#[verifier::external_body]
pub(crate) fn add_glob(builder: &mut globset::GlobSetBuilder, glob: globset::Glob)
    ensures
        builder_globs(*final(builder)) == builder_globs(*old(builder)).push(glob),
{
    builder.add(glob);
}

/// `globset::GlobSet::is_match` tells whether some glob of the set matches
/// the path; the answer depends on the set and the path alone, and an
/// empty set matches nothing.
#[verifier::external_body]
pub(crate) fn glob_set_is_match(set: &globset::GlobSet, path: &str) -> (b: bool)
    ensures
        b == globset_matches(*set, path@),
        globset_is_empty(*set) ==> !b,
{
    set.is_match(path)
}

/// The `Display` text of a `globset::Error`, which depends on the error
/// alone.
#[verifier::external_body]
pub(crate) fn glob_error_message(e: &globset::Error) -> (s: String)
    ensures
        s@ == glob_error_text(*e),
{
    e.to_string()
}

} // verus!
