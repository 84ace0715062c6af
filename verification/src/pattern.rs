//! Glob patterns. Compiling and matching are the work of the `glob` crate;
//! this module states what the rest of the library relies on.

use glob::{Pattern, PatternError};
use vstd::prelude::*;

verus! {

/// `glob::Pattern`, a compiled pattern. Nothing of its inside is visible here.
#[verifier::external_type_specification]
#[verifier::external_body]
pub struct ExPattern(Pattern);

/// `glob::PatternError`, the reason a text is no pattern.
#[verifier::external_type_specification]
#[verifier::external_body]
pub struct ExPatternError(PatternError);

/// What a pattern holds: the text that it was compiled from.
pub uninterp spec fn pattern_text(pattern: Pattern) -> Seq<char>;

/// Whether `Pattern::new` accepts `text` as a pattern. Where the rules of
/// the syntax speak of path separators, those of the platform are meant.
pub uninterp spec fn is_pattern(text: Seq<char>) -> bool;

/// Whether the pattern compiled from `text` matches `path`, as
/// `Pattern::matches` decides it: with the default match options and the path
/// separators of the platform.
pub uninterp spec fn glob_matches(text: Seq<char>, path: Seq<char>) -> bool;

/// The pattern that matches every path.
pub open spec fn match_all() -> Seq<char> {
    seq!['*']
}

/// `Pattern::new` compiles a text. It succeeds exactly on the texts that are
/// patterns, and the pattern it returns remembers the text. A lone `*` is a
/// pattern.
pub assume_specification[ Pattern::new ](pattern: &str) -> (compiled: Result<Pattern, PatternError>)
    ensures
        compiled is Ok <==> is_pattern(pattern@),
        compiled matches Ok(p) ==> pattern_text(p) == pattern@,
        pattern@ == match_all() ==> compiled is Ok,
;

/// `Pattern::matches` decides whether a path matches, which depends on the
/// pattern's text and the path alone.
pub assume_specification[ Pattern::matches ](pattern: &Pattern, str: &str) -> (matched: bool)
    ensures
        matched == glob_matches(pattern_text(*pattern), str@),
;

} // verus!
