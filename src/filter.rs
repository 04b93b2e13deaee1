//! Exclusion rules: glob patterns matched against paths relative to the
//! local root. An entry that a pattern matches is left out, and so is
//! everything below a directory that a pattern matches.
use vstd::prelude::*;

use crate::text::chars_of;

verus! {

/// A parsed glob of `globset`, carried through unopened.
#[verifier::external_type_specification]
#[verifier::external_body]
pub struct ExGlob(globset::Glob);

/// A compiled set of globs of `globset`, carried through unopened.
#[verifier::external_type_specification]
#[verifier::external_body]
pub struct ExGlobSet(globset::GlobSet);

/// The builder of a glob set of `globset`, carried through unopened.
#[verifier::external_type_specification]
#[verifier::external_body]
pub struct ExGlobSetBuilder(globset::GlobSetBuilder);

/// The error of `globset`, mapped to `ConfigurationError` at once.
#[verifier::external_type_specification]
#[verifier::external_body]
pub struct ExGlobError(globset::Error);

/// Whether `globset::Glob::new` accepts `pattern` with default options.
pub uninterp spec fn glob_parses(pattern: Seq<char>) -> bool;

/// Whether the glob `pattern`, compiled with default options, matches `path`.
pub uninterp spec fn glob_matches(pattern: Seq<char>, path: Seq<char>) -> bool;

/// The texts of the globs added to a builder, in order.
pub uninterp spec fn builder_patterns(b: globset::GlobSetBuilder) -> Seq<Seq<char>>;

/// The text that a glob was parsed from (`globset::Glob::glob`).
pub uninterp spec fn glob_pattern(g: globset::Glob) -> Seq<char>;

/// Whether `globset::GlobSetBuilder::build` succeeds on the globs parsed
/// from `pats`, in order.
pub uninterp spec fn set_builds(pats: Seq<Seq<char>>) -> bool;

/// Relies on `globset::GlobSetBuilder::new`: a builder with no globs.
pub assume_specification[ globset::GlobSetBuilder::new ]() -> (r: globset::GlobSetBuilder)
    ensures
        builder_patterns(r).len() == 0,
;

/// Relies on `globset::GlobSetBuilder::build`: whether it succeeds depends on
/// the globs added alone, and with no glob it always succeeds (`GlobSet::new`
/// returns the empty set).
pub assume_specification[ globset::GlobSetBuilder::build ](
    b: &globset::GlobSetBuilder,
) -> (r: Result<globset::GlobSet, globset::Error>)
    ensures
        r is Ok <==> set_builds(builder_patterns(*b)),
        builder_patterns(*b).len() == 0 ==> r is Ok,
;

/// Relies on `globset::Glob::new`: it succeeds exactly on the patterns that
/// parse, and the glob keeps the text it was parsed from.
#[verifier::external_body]
fn parse_glob(pattern: &str) -> (r: Option<globset::Glob>)
    ensures
        r is Some <==> glob_parses(pattern@),
        r matches Some(g) ==> glob_pattern(g) == pattern@,
{
    globset::Glob::new(pattern).ok()
}

/// Relies on `globset::GlobSetBuilder::add`: the glob is appended to the
/// builder's globs.
#[verifier::external_body]
fn builder_add(b: &mut globset::GlobSetBuilder, g: globset::Glob)
    ensures
        builder_patterns(*final(b)) == builder_patterns(*old(b)).push(glob_pattern(g)),
{
    b.add(g);
}

/// Error raised when the matcher cannot be built from the accepted patterns.
#[derive(Clone, Copy, Debug, PartialEq, Eq, Structural)]
pub struct ConfigurationError;

/// An ordered set of exclusion patterns, compiled once.
pub struct ExclusionFilter {
    patterns: Vec<String>,
    set: globset::GlobSet,
}

/// Whether some pattern of `pats` matches `path`.
pub open spec fn excluded(pats: Seq<Seq<char>>, path: Seq<char>) -> bool {
    exists|k: int| 0 <= k < pats.len() && glob_matches(#[trigger] pats[k], path)
}

/// Whether `i` ends a leading run of whole components of `path`: the empty
/// prefix, the whole path, or a place just before a `/`.
pub open spec fn is_boundary(path: Seq<char>, i: int) -> bool {
    i == 0 || i == path.len() || (0 < i < path.len() && path[i] == '/')
}

/// Whether a walk keeps `path`: neither the path itself nor any directory
/// above it (the root included) is matched.
pub open spec fn kept(pats: Seq<Seq<char>>, path: Seq<char>) -> bool {
    forall|i: int|
        0 <= i <= path.len() && #[trigger] is_boundary(path, i) ==> !excluded(
            pats,
            path.subrange(0, i),
        )
}

/// The patterns of `pats` that parse, in order.
pub open spec fn parsing_patterns(pats: Seq<Seq<char>>) -> Seq<Seq<char>>
    decreases pats.len(),
{
    if pats.len() == 0 {
        Seq::empty()
    } else if glob_parses(pats.last()) {
        parsing_patterns(pats.drop_last()).push(pats.last())
    } else {
        parsing_patterns(pats.drop_last())
    }
}

/// Relies on `globset::GlobSet::is_match`: true when some glob of the set
/// matches the path. The set is built from exactly the filter's patterns.
#[verifier::external_body]
fn set_matches(f: &ExclusionFilter, path: &str) -> (r: bool)
    ensures
        r == (exists|k: int| 0 <= k < f@.len() && glob_matches(#[trigger] f@[k], path@)),
{
    f.set.is_match(path)
}

impl View for ExclusionFilter {
    type V = Seq<Seq<char>>;

    /// The patterns in force.
    closed spec fn view(&self) -> Seq<Seq<char>> {
        self.patterns@.map_values(|p: String| p@)
    }
}

impl ExclusionFilter {
    /// Compiles the patterns that parse, in order; one that does not parse is
    /// dropped. Fails only where the matcher cannot be built from them, and
    /// never where none of them parses (in particular on no patterns).
    pub fn build(patterns: &Vec<String>) -> (r: Result<ExclusionFilter, ConfigurationError>)
        ensures
            r is Ok <==> set_builds(parsing_patterns(patterns@.map_values(|p: String| p@))),
            parsing_patterns(patterns@.map_values(|p: String| p@)).len() == 0 ==> r is Ok,
            r matches Ok(f) ==> f@ == parsing_patterns(patterns@.map_values(|p: String| p@)),
    {
        let ghost all = patterns@.map_values(|p: String| p@);
        let mut builder = globset::GlobSetBuilder::new();
        let mut kept_pats: Vec<String> = Vec::new();
        let mut i: usize = 0;
        while i < patterns.len()
            invariant
                i <= patterns@.len(),
                all == patterns@.map_values(|p: String| p@),
                kept_pats@.map_values(|p: String| p@) == parsing_patterns(all.subrange(0, i as int)),
                builder_patterns(builder) == kept_pats@.map_values(|p: String| p@),
            decreases patterns@.len() - i,
        {
            let p = &patterns[i];
            proof {
                assert(all.subrange(0, i + 1).drop_last() =~= all.subrange(0, i as int));
                assert(all.subrange(0, i + 1).last() == p@);
            }
            match parse_glob(p.as_str()) {
                Some(g) => {
                    builder_add(&mut builder, g);
                    let ghost before = kept_pats@;
                    kept_pats.push(p.clone());
                    assert(kept_pats@.map_values(|p: String| p@) =~= before.map_values(
                        |p: String| p@,
                    ).push(p@));
                    assert(kept_pats@.map_values(|p: String| p@) =~= parsing_patterns(
                        all.subrange(0, i + 1),
                    ));
                },
                None => {},
            }
            i += 1;
        }
        assert(all.subrange(0, patterns@.len() as int) =~= all);
        match builder.build() {
            Ok(set) => Ok(ExclusionFilter { patterns: kept_pats, set }),
            Err(_) => Err(ConfigurationError),
        }
    }

    /// Whether some pattern matches `path`.
    pub fn is_excluded(&self, path: &str) -> (r: bool)
        ensures
            r == excluded(self@, path@),
    {
        set_matches(self, path)
    }

    /// Whether a walk keeps the entry at relative path `path`.
    pub fn keeps(&self, path: &str) -> (r: bool)
        ensures
            r == kept(self@, path@),
    {
        let cs = chars_of(path);
        let n = cs.len();
        let mut i: usize = 0;
        while i < n
            invariant
                cs@ == path@,
                n == cs@.len(),
                i <= n,
                forall|j: int|
                    0 <= j < i && #[trigger] is_boundary(path@, j) ==> !excluded(
                        self@,
                        path@.subrange(0, j),
                    ),
            decreases n - i,
        {
            if i == 0 || cs[i] == '/' {
                let prefix = path.substring_char(0, i);
                if set_matches(self, prefix) {
                    assert(is_boundary(path@, i as int));
                    return false;
                }
            }
            i += 1;
        }
        if set_matches(self, path) {
            assert(is_boundary(path@, n as int));
            assert(path@.subrange(0, n as int) =~= path@);
            return false;
        }
        assert(path@.subrange(0, n as int) =~= path@);
        true
    }
}


/// With no patterns nothing is excluded: every path is kept.
pub proof fn lemma_no_rules_keep_everything(path: Seq<char>)
    ensures
        kept(Seq::empty(), path),
{
}

proof fn lemma_parsing_patterns_parse(pats: Seq<Seq<char>>)
    ensures
        forall|k: int|
            0 <= k < parsing_patterns(pats).len() ==> glob_parses(#[trigger] parsing_patterns(pats)[k]),
    decreases pats.len(),
{
    if pats.len() > 0 {
        let rest = parsing_patterns(pats.drop_last());
        lemma_parsing_patterns_parse(pats.drop_last());
        if glob_parses(pats.last()) {
            assert forall|k: int| 0 <= k < rest.len() + 1 implies glob_parses(
                #[trigger] rest.push(pats.last())[k],
            ) by {
                if k < rest.len() {
                    assert(rest.push(pats.last())[k] == rest[k]);
                }
            }
        }
    }
}

proof fn lemma_parsing_patterns_of_parsing(pats: Seq<Seq<char>>)
    requires
        forall|k: int| 0 <= k < pats.len() ==> glob_parses(#[trigger] pats[k]),
    ensures
        parsing_patterns(pats) == pats,
    decreases pats.len(),
{
    if pats.len() > 0 {
        lemma_parsing_patterns_of_parsing(pats.drop_last());
        assert(glob_parses(pats[pats.len() - 1]));
        assert(pats.drop_last().push(pats.last()) =~= pats);
    }
}

/// Dropping the patterns that do not parse changes nothing: a filter built
/// from what is left has the same patterns in force, and builds exactly
/// where the first does.
pub proof fn lemma_unparsable_patterns_are_ignored(pats: Seq<Seq<char>>)
    ensures
        parsing_patterns(parsing_patterns(pats)) == parsing_patterns(pats),
{
    lemma_parsing_patterns_parse(pats);
    lemma_parsing_patterns_of_parsing(parsing_patterns(pats));
}

} // verus!
