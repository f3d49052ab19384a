//! Path patterns. A pattern is well formed when the `regex` crate compiles
//! it; nothing of the syntax of regular expressions is proved here.

use vstd::prelude::*;
use crate::diagnostic::{fatal, lone, Diagnostic, Problem};
use crate::rust_syntax::text_of;
use crate::token::Span;

verus! {

/// What `regex` answers when asked to compile `pattern`: `None` where the
/// pattern compiles, else the text of the error.
pub uninterp spec fn regex_fault(pattern: Seq<char>) -> Option<Seq<char>>;

/// Calls `regex::Regex::new` and hands out the text of its error, if it
/// gives one. The contract only names the answer.
#[verifier::external_body]
pub(crate) fn regex_compile(pattern: &str) -> (r: Option<String>)
    ensures
        text_of(r) == regex_fault(pattern@),
{
    regex::Regex::new(pattern).err().map(|e| e.to_string())
}

/// A path pattern that is no regular expression: where it stands, and
/// what is wrong with it.
#[derive(Debug, PartialEq, Eq)]
pub struct PatternFault {
    pub span: Span,
    pub reason: String,
}

impl View for PatternFault {
    type V = (Span, Seq<char>);

    open spec fn view(&self) -> (Span, Seq<char>) {
        (self.span, self.reason@)
    }
}

/// The fault of the pattern at `span`, given what compiling it answered.
pub open spec fn verdict(span: Span, answer: Option<Seq<char>>) -> Option<(Span, Seq<char>)> {
    match answer {
        Some(reason) => Some((span, reason)),
        None => None,
    }
}

impl PatternFault {
    /// Judges the pattern at `span` by what compiling it answered: an
    /// error text is a fault at `span`, no error text is none.
    pub fn judge(span: Span, answer: Option<String>) -> (r: Result<(), PatternFault>)
        ensures
            match r {
                Ok(_) => verdict(span, text_of(answer)) is None,
                Err(fault) => verdict(span, text_of(answer)) == Some(fault@),
            },
    {
        match answer {
            Some(reason) => Err(PatternFault { span, reason }),
            None => Ok(()),
        }
    }

    /// The fatal diagnostic that reports the fault at the pattern.
    pub fn diagnostic(&self) -> (r: Diagnostic)
        ensures
            r@ == lone(self.span, Problem::MalformedPattern),
            fatal(r@),
    {
        Diagnostic::single(self.span, Problem::MalformedPattern)
    }
}

/// Compiles `pattern` and says what is wrong with it, if anything is.
pub fn pattern_fault(pattern: &String) -> (r: Option<String>)
    ensures
        text_of(r) == regex_fault(pattern@),
{
    regex_compile(pattern.as_str())
}

} // verus!
