//! Detector patterns: shell-style globs matched against sibling file names.
use vstd::prelude::*;

verus! {

/// Whether `glob` accepts `pattern` as a well-formed glob.
pub uninterp spec fn glob_valid(pattern: Seq<char>) -> bool;

/// Whether the glob `pattern` matches the whole of `name`.
pub uninterp spec fn glob_matches(pattern: Seq<char>, name: Seq<char>) -> bool;

#[verifier::external_type_specification]
#[verifier::external_body]
pub struct ExPattern(glob::Pattern);

#[verifier::external_type_specification]
#[verifier::external_body]
pub struct ExPatternError(glob::PatternError);

/// Relies on glob::Pattern::new: compiles `text`, failing exactly when it is
/// not a well-formed glob.
#[verifier::external_body]
fn compile(text: &str) -> (r: Result<glob::Pattern, glob::PatternError>)
    ensures
        r is Ok <==> glob_valid(text@),
{
    glob::Pattern::new(text)
}

/// A compiled glob together with the text it was compiled from.
pub struct Detector {
    source: String,
    compiled: glob::Pattern,
}

impl Detector {
    /// The text of the glob.
    pub closed spec fn source(&self) -> Seq<char> {
        self.source@
    }

    /// Compiles `text`; `None` when it is not a well-formed glob.
    pub fn new(text: &str) -> (r: Option<Detector>)
        ensures
            r is Some <==> glob_valid(text@),
            r is Some ==> r->0.source() == text@,
    {
        match compile(text) {
            Ok(compiled) => Some(Detector { source: text.to_owned(), compiled }),
            Err(_) => None,
        }
    }

    /// Relies on glob::Pattern::matches with the default options, on the
    /// pattern that `new` compiled from `source` (the only way to build one).
    #[verifier::external_body]
    pub(crate) fn matches(&self, name: &str) -> (r: bool)
        ensures
            r == glob_matches(self.source(), name@),
    {
        self.compiled.matches(name)
    }
}

} // verus!
