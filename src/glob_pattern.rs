//! Wildcard patterns, compiled and matched by the `glob` crate.

use glob::Pattern;
use vstd::prelude::*;

verus! {

#[verifier::external_type_specification]
#[verifier::external_body]
pub struct ExPattern(Pattern);

/// What `glob::Pattern::new` makes of a pattern text: `None` when it
/// compiles, else the text of the syntax error.
pub uninterp spec fn glob_parse_error(pattern: Seq<char>) -> Option<Seq<char>>;

/// Whether `glob::Pattern::matches`, on the pattern compiled from the text
/// `pattern`, accepts `name`.
pub uninterp spec fn glob_matches(pattern: Seq<char>, name: Seq<char>) -> bool;

/// A compiled wildcard pattern together with the text it was compiled from.
///
/// The two fields are only ever set together, by [`GlobPattern::new`], so
/// `compiled` is always what `glob` makes of `text`.
#[derive(Debug)]
pub struct GlobPattern {
    text: String,
    compiled: Pattern,
}

impl View for GlobPattern {
    type V = Seq<char>;

    /// The text the pattern was compiled from.
    closed spec fn view(&self) -> Seq<char> {
        self.text@
    }
}

/// Relies on `glob::Pattern::new`, which compiles a pattern text or reports
/// a syntax error, and on the error's `Display` for its text.
#[verifier::external_body]
fn compile_glob(text: &str) -> (r: Result<GlobPattern, String>)
    ensures
        match r {
            Ok(p) => p@ == text@ && glob_parse_error(text@) is None,
            Err(msg) => glob_parse_error(text@) == Some(msg@),
        },
{
    match Pattern::new(text) {
        Ok(compiled) => Ok(GlobPattern { text: text.to_string(), compiled }),
        Err(e) => Err(e.to_string()),
    }
}

/// Relies on `glob::Pattern::matches`, with its default options.
#[verifier::external_body]
fn glob_accepts(p: &GlobPattern, name: &str) -> (r: bool)
    ensures
        r == glob_matches(p@, name@),
{
    p.compiled.matches(name)
}

impl GlobPattern {
    /// Compiles `text`, or gives the text of its syntax error.
    pub fn new(text: &str) -> (r: Result<GlobPattern, String>)
        ensures
            match r {
                Ok(p) => p@ == text@ && glob_parse_error(text@) is None,
                Err(msg) => glob_parse_error(text@) == Some(msg@),
            },
    {
        compile_glob(text)
    }

    /// Whether the pattern accepts `name`.
    pub fn matches(&self, name: &str) -> (r: bool)
        ensures
            r == glob_matches(self@, name@),
    {
        glob_accepts(self, name)
    }
}

} // verus!
