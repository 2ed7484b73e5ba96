//! Regular expressions of the `regex` crate.
use vstd::prelude::*;

verus! {

/// `regex::Regex`: a compiled pattern. Opaque; what it matches is named by
/// [`regex_finds`].
#[verifier::external_type_specification]
#[verifier::external_body]
pub struct ExRegex(regex::Regex);

/// `regex::Error`: why a pattern does not compile. Opaque; its text is named by
/// [`regex_error_text`], and the size limit that it carries by
/// [`regex_error_limit`].
#[verifier::external_type_specification]
#[verifier::external_body]
pub struct ExRegexError(regex::Error);

/// What `regex::Regex::is_match` returns: whether the compiled pattern matches
/// anywhere in a text.
pub uninterp spec fn regex_finds(re: regex::Regex, text: Seq<char>) -> bool;

/// Whether the pattern, compiled by `regex::RegexBuilder` with no option but a
/// size limit, matches anywhere in a text.
pub uninterp spec fn pattern_finds(pattern: Seq<char>, text: Seq<char>) -> bool;

/// The text that the `Display` impl of `regex::Error` writes.
pub uninterp spec fn regex_error_text(e: regex::Error) -> Seq<char>;

/// The size limit in the variant `CompiledTooBig` of `regex::Error`; none in the
/// other variants.
pub uninterp spec fn regex_error_limit(e: regex::Error) -> Option<usize>;

/// Whether an error is consistent with `limit` having been set: it is none about
/// the size of the compiled pattern, or it names this limit.
pub open spec fn respects_limit(e: regex::Error, limit: usize) -> bool {
    regex_error_limit(e) is None || regex_error_limit(e) == Some(limit)
}

/// The text of the error with which `regex::RegexBuilder::build` refuses a pattern
/// for its syntax; none where the syntax is sound.
pub uninterp spec fn syntax_refusal(pattern: Seq<char>) -> Option<Seq<char>>;

/// The length from which on a pattern may hold more groups than the `regex` crate
/// can number.
pub const PATTERN_LENGTH_LIMIT: usize = 0x1000_0000;

/// The text of an error that is not about size.
pub open spec fn refusal_of(e: regex::Error) -> Option<Seq<char>> {
    if regex_error_limit(e) is None {
        Some(regex_error_text(e))
    } else {
        None
    }
}

/// `regex::Regex::is_match`: the result depends on the compiled pattern and the
/// text alone.
pub assume_specification[ regex::Regex::is_match ](re: &regex::Regex, haystack: &str) -> (r: bool)
    ensures
        r == regex_finds(*re, haystack@),
;

/// `regex::RegexBuilder::new`, `size_limit` and `build`: compiles a pattern.
///
/// What the compiled pattern matches is fixed by the pattern, and so is whether
/// its syntax is refused, and with which text: the pattern is parsed before
/// anything is built. Whether a pattern of sound syntax compiles is left open: the
/// size that is held against the limit is one of data structures in memory, which
/// differs between machines. A pattern that is refused for its size is refused
/// with the limit that was set.
///
/// `build` also refuses, with an error that is not about size, a pattern that
/// needs more states or groups than fit its numbering of them. A size limit of a
/// mebibyte is exceeded long before the states run out; nothing is said of the
/// syntax of a pattern that is long enough for the groups to do so.
#[verifier::external_body]
pub(crate) fn compile_pattern(pattern: &str, size_limit: usize) -> (r: Result<
    regex::Regex,
    regex::Error,
>)
    requires
        size_limit <= 0x10_0000,
    ensures
        match r {
            Ok(re) => {
                &&& forall|text: Seq<char>| #[trigger]
                    regex_finds(re, text) == pattern_finds(pattern@, text)
                &&& pattern@.len() < PATTERN_LENGTH_LIMIT ==> syntax_refusal(pattern@) is None
            },
            Err(e) => {
                &&& respects_limit(e, size_limit)
                &&& pattern@.len() < PATTERN_LENGTH_LIMIT ==> syntax_refusal(pattern@)
                    == refusal_of(e)
            },
        },
{
    regex::RegexBuilder::new(pattern).size_limit(size_limit).build()
}

/// `to_string` of `regex::Error`: the text that its `Display` impl writes.
#[verifier::external_body]
pub(crate) fn error_text(e: &regex::Error) -> (r: String)
    ensures
        r@ == regex_error_text(*e),
{
    e.to_string()
}

/// The variant `CompiledTooBig` of `regex::Error`: the size limit that it
/// carries.
#[verifier::external_body]
pub(crate) fn error_limit(e: &regex::Error) -> (r: Option<usize>)
    ensures
        r == regex_error_limit(*e),
{
    match e {
        regex::Error::CompiledTooBig(limit) => Some(*limit),
        _ => None,
    }
}

} // verus!
