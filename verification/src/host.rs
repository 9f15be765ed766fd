use vstd::prelude::*;

verus! {

/// The error of the `glob` crate for a malformed pattern, carried through
/// as an opaque value.
#[verifier::external_type_specification]
#[verifier::external_body]
pub struct ExPatternError(glob::PatternError);

/// Asks `dirs::home_dir` for the home directory of the current user and
/// hands it on as text. Nothing is claimed of the answer: it depends on the
/// environment of the process, and there is none where the host knows no
/// home directory or its path is not valid Unicode.
#[verifier::external_body]
pub(crate) fn home_dir() -> (found: Option<String>) {
    dirs::home_dir().and_then(|path| path.to_str().map(str::to_owned))
}

/// Asks `dirs::config_dir` for the configuration directory of the current
/// user and hands it on as text. Nothing is claimed of the answer: it
/// depends on the environment of the process, and there is none where the
/// host knows no such directory or its path is not valid Unicode.
#[verifier::external_body]
pub(crate) fn config_dir() -> (found: Option<String>) {
    dirs::config_dir().and_then(|path| path.to_str().map(str::to_owned))
}

/// Whether a glob pattern holds a character at which it can be malformed:
/// `*`, whose runs may only be one or two long and, where two long, must
/// fill a whole path component, or `[`, which must open a range that is
/// closed.
pub open spec fn can_be_malformed(pattern: Seq<char>) -> bool {
    pattern.contains('*') || pattern.contains('[')
}

/// Hands `pattern` to `glob::glob` and collects what its iterator yields,
/// in the order in which it yields it: the text of each matched path, and
/// nothing for a match that could not be read or whose path is not valid
/// Unicode. What is matched depends on what is on disk, and nothing is
/// claimed of it. What is claimed: `glob::glob` refuses a pattern only
/// while compiling it or one of its components, and the compiler gives up
/// only at a `*` or at a `[`, so a pattern that holds neither is accepted.
#[verifier::external_body]
pub(crate) fn expand_glob(pattern: &str) -> (found: Result<Vec<Option<String>>, glob::PatternError>)
    ensures
        !can_be_malformed(pattern@) ==> found is Ok,
{
    glob::glob(pattern).map(
        |paths|
            paths.map(|entry| entry.ok().and_then(|path| path.to_str().map(str::to_owned))).collect(),
    )
}

/// Reads the field `pos` of a pattern error: roughly the index of the
/// character at which the pattern went wrong.
#[verifier::external_body]
pub(crate) fn pattern_error_position(error: &glob::PatternError) -> (position: usize) {
    error.pos
}

/// Reads the field `msg` of a pattern error: what is wrong with the
/// pattern, in words.
#[verifier::external_body]
pub(crate) fn pattern_error_message(error: &glob::PatternError) -> (message: String) {
    error.msg.to_owned()
}

} // verus!
