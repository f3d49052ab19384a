//! Diagnostics: what a failed parse reports.
//!
//! A diagnostic is an ordered list of entries, each a location and a problem.
//! Merging two diagnostics concatenates their lists, so one diagnostic can
//! carry every problem found in a block. A fatal problem is never merged: it
//! ends the parse where it is found and is reported alone.

use vstd::prelude::*;
use crate::token::Span;

verus! {

/// The problems that the grammars report.
#[derive(Clone, Copy, Debug, PartialEq, Eq, Structural)]
pub enum Problem {
    /// An identifier was expected.
    ExpectedIdent,
    /// Exactly one of `||`, `&&`, `==`, `!=` was expected between two
    /// operands: none stands there, or a further one follows the second
    /// operand.
    ExpectedOperator,
    /// A `,` was expected.
    ExpectedComma,
    /// A `->` was expected.
    ExpectedArrow,
    /// A `=>` was expected.
    ExpectedFatArrow,
    /// A parenthesized group was expected.
    ExpectedParens,
    /// A braced group was expected.
    ExpectedBraces,
    /// A visibility qualifier is malformed.
    ExpectedVisibility,
    /// A type was expected.
    ExpectedType,
    /// An argument was expected.
    ExpectedArgument,
    /// A path was expected.
    ExpectedPath,
    /// An integer literal was expected.
    ExpectedInteger,
    /// A string literal was expected.
    ExpectedString,
    /// The keyword `match` was expected.
    ExpectedMatch,
    /// An attribute is malformed.
    ExpectedAttribute,
    /// A token stands where the construct has ended.
    UnexpectedToken,
    /// An attribute other than a doc comment stands on a mapping entry.
    UnexpectedAttribute,
    /// A mapping block has no entry.
    EmptyMatch,
    /// An argument has no name. Fatal.
    MissingArgumentName,
    /// A block handed to the `if` grammar does not begin with `if`. Fatal.
    NotIf,
    /// A block handed to the `async` grammar does not begin with `async`. Fatal.
    NotAsync,
    /// A block handed to the `sync` grammar does not begin with `sync`. Fatal.
    NotSync,
    /// A mapping block begins with a word other than `match`. Fatal.
    UnknownOperation,
    /// A path pattern is no regular expression. Fatal.
    MalformedPattern,
}

impl Problem {
    /// Whether the problem ends the parse at once.
    pub open spec fn spec_is_fatal(self) -> bool {
        self == Problem::MissingArgumentName || self == Problem::NotIf || self == Problem::NotAsync
            || self == Problem::NotSync || self == Problem::UnknownOperation || self
            == Problem::MalformedPattern
    }

    /// Whether the problem ends the parse at once.
    #[verifier::when_used_as_spec(spec_is_fatal)]
    pub fn is_fatal(self) -> (r: bool)
        ensures
            r == self.spec_is_fatal(),
    {
        match self {
            Problem::MissingArgumentName => true,
            Problem::NotIf => true,
            Problem::NotAsync => true,
            Problem::NotSync => true,
            Problem::UnknownOperation => true,
            Problem::MalformedPattern => true,
            _ => false,
        }
    }

    /// Whether the problem is a warning.
    pub open spec fn spec_is_advisory(self) -> bool {
        self == Problem::EmptyMatch
    }

    /// Whether the problem is a warning: it is reported and fails nothing.
    #[verifier::when_used_as_spec(spec_is_advisory)]
    pub fn is_advisory(self) -> (r: bool)
        ensures
            r == self.spec_is_advisory(),
    {
        match self {
            Problem::EmptyMatch => true,
            _ => false,
        }
    }

    /// The text shown for the problem.
    pub open spec fn spec_message(self) -> Seq<char> {
        match self {
            Problem::ExpectedIdent => "expected identifier"@,
            Problem::ExpectedOperator => "expected exactly one of: `||`, `&&`, `==`, `!=`"@,
            Problem::ExpectedComma => "expected `,`"@,
            Problem::ExpectedArrow => "expected `->`"@,
            Problem::ExpectedFatArrow => "expected `=>`"@,
            Problem::ExpectedParens => "expected parentheses"@,
            Problem::ExpectedBraces => "expected curly braces"@,
            Problem::ExpectedVisibility => "expected visibility qualifier"@,
            Problem::ExpectedType => "expected type"@,
            Problem::ExpectedArgument => "expected argument"@,
            Problem::ExpectedPath => "expected path"@,
            Problem::ExpectedInteger => "expected integer literal"@,
            Problem::ExpectedString => "expected string literal"@,
            Problem::ExpectedMatch => "expected `match`"@,
            Problem::ExpectedAttribute => "expected attribute"@,
            Problem::UnexpectedToken => "unexpected token"@,
            Problem::UnexpectedAttribute => "Unexpected attribute type"@,
            Problem::EmptyMatch => "Empty match is unusable. Route handler which returns this Response type will have no variant to use as a result of its execution"@,
            Problem::MissingArgumentName => "Expected name for this argument"@,
            Problem::NotIf => "Not an `if` statement"@,
            Problem::NotAsync => "Not an `async` block"@,
            Problem::NotSync => "Not an `sync` block"@,
            Problem::UnknownOperation => "Unknown operation. Expected `match`"@,
            Problem::MalformedPattern => "regex parse error"@,
        }
    }

    /// The text shown for the problem.
    pub fn message(self) -> (r: String)
        ensures
            r@ == self.spec_message(),
    {
        let text = match self {
            Problem::ExpectedIdent => "expected identifier",
            Problem::ExpectedOperator => "expected exactly one of: `||`, `&&`, `==`, `!=`",
            Problem::ExpectedComma => "expected `,`",
            Problem::ExpectedArrow => "expected `->`",
            Problem::ExpectedFatArrow => "expected `=>`",
            Problem::ExpectedParens => "expected parentheses",
            Problem::ExpectedBraces => "expected curly braces",
            Problem::ExpectedVisibility => "expected visibility qualifier",
            Problem::ExpectedType => "expected type",
            Problem::ExpectedArgument => "expected argument",
            Problem::ExpectedPath => "expected path",
            Problem::ExpectedInteger => "expected integer literal",
            Problem::ExpectedString => "expected string literal",
            Problem::ExpectedMatch => "expected `match`",
            Problem::ExpectedAttribute => "expected attribute",
            Problem::UnexpectedToken => "unexpected token",
            Problem::UnexpectedAttribute => "Unexpected attribute type",
            Problem::EmptyMatch => "Empty match is unusable. Route handler which returns this Response type will have no variant to use as a result of its execution",
            Problem::MissingArgumentName => "Expected name for this argument",
            Problem::NotIf => "Not an `if` statement",
            Problem::NotAsync => "Not an `async` block",
            Problem::NotSync => "Not an `sync` block",
            Problem::UnknownOperation => "Unknown operation. Expected `match`",
            Problem::MalformedPattern => "regex parse error",
        };
        String::from_str(text)
    }
}

/// One reported problem and where it is.
#[derive(Clone, Copy, Debug, PartialEq, Eq, Structural)]
pub struct Entry {
    pub span: Span,
    pub problem: Problem,
}

/// The one-entry list that reports `problem` at `span`.
pub open spec fn lone(span: Span, problem: Problem) -> Seq<Entry> {
    seq![Entry { span, problem }]
}

/// Whether a list of entries is a fatal diagnostic.
pub open spec fn fatal(entries: Seq<Entry>) -> bool {
    entries.len() > 0 && entries[0].problem.spec_is_fatal()
}

/// What every diagnostic of this crate satisfies: it has an entry, and a
/// fatal entry stands alone.
pub open spec fn well_formed(entries: Seq<Entry>) -> bool {
    &&& entries.len() > 0
    &&& (exists|i: int| 0 <= i < entries.len() && (#[trigger] entries[i]).problem.spec_is_fatal())
        ==> entries.len() == 1
}

/// A diagnostic: every problem found in one parse, in the order found.
#[derive(Debug, PartialEq, Eq)]
pub struct Diagnostic {
    pub entries: Vec<Entry>,
}

impl View for Diagnostic {
    type V = Seq<Entry>;

    open spec fn view(&self) -> Seq<Entry> {
        self.entries@
    }
}

impl Diagnostic {
    /// The diagnostic that reports `problem` at `span` and nothing else.
    pub fn single(span: Span, problem: Problem) -> (r: Diagnostic)
        ensures
            r@ == lone(span, problem),
    {
        let mut entries: Vec<Entry> = Vec::new();
        entries.push(Entry { span, problem });
        proof {
            assert(entries@ =~= lone(span, problem));
        }
        Diagnostic { entries }
    }

    /// Merges `other` into this diagnostic: its entries follow those that
    /// are here already.
    pub fn combine(&mut self, other: Diagnostic)
        ensures
            final(self)@ == old(self)@ + other@,
    {
        let mut other = other;
        self.entries.append(&mut other.entries);
    }

    /// Whether the diagnostic ends the parse at once.
    pub fn is_fatal(&self) -> (r: bool)
        ensures
            r == fatal(self@),
    {
        self.entries.len() > 0 && self.entries[0].problem.is_fatal()
    }

    /// The number of problems reported.
    pub fn len(&self) -> (r: usize)
        ensures
            r == self@.len(),
    {
        self.entries.len()
    }
}

/// A failed parse step: the diagnostic, and the position at which the
/// cursor stood when the step gave up.
#[derive(Debug, PartialEq, Eq)]
pub struct Halt {
    pub diagnostic: Diagnostic,
    pub stop: usize,
}

impl Halt {
    /// The failure that reports `problem` at `span`, with the cursor at `stop`.
    pub fn at(span: Span, problem: Problem, stop: usize) -> (r: Halt)
        ensures
            r.diagnostic@ == lone(span, problem),
            r.stop == stop,
    {
        Halt { diagnostic: Diagnostic::single(span, problem), stop }
    }
}

/// A list that begins with `before`, given what the rest of the tokens is.
pub open spec fn continued<V>(before: Seq<V>, rest: Result<Seq<V>, Seq<Entry>>) -> Result<
    Seq<V>,
    Seq<Entry>,
> {
    match rest {
        Ok(more) => Ok(before + more),
        Err(e) => Err(e),
    }
}

/// A unit that begins with the item `first`, given what the rest of the
/// tokens is.
pub open spec fn after_item<V>(first: V, rest: Result<Seq<V>, Seq<Entry>>) -> Result<
    Seq<V>,
    Seq<Entry>,
> {
    match rest {
        Ok(more) => Ok(seq![first] + more),
        Err(e) => Err(e),
    }
}

/// A unit that begins with an item that failed with `e`, not fatally,
/// given what the rest of the tokens is: the rest's diagnostic is merged
/// behind `e`, unless it is fatal.
pub open spec fn after_error<V>(e: Seq<Entry>, rest: Result<V, Seq<Entry>>) -> Result<
    V,
    Seq<Entry>,
> {
    match rest {
        Ok(_) => Err(e),
        Err(later) => if fatal(later) {
            Err(later)
        } else {
            Err(e + later)
        },
    }
}

/// What a unit is, given the items and the diagnostics gathered before
/// the position that `rest` was read from.
pub open spec fn pending<V>(
    before: Seq<V>,
    errors: Seq<Entry>,
    rest: Result<Seq<V>, Seq<Entry>>,
) -> Result<Seq<V>, Seq<Entry>> {
    match rest {
        Ok(more) => if errors.len() == 0 {
            Ok(before + more)
        } else {
            Err(errors)
        },
        Err(later) => if fatal(later) {
            Err(later)
        } else {
            Err(errors + later)
        },
    }
}

/// Merging is associative: the grouping of merges does not change the list.
pub proof fn lemma_combine_associative(a: Seq<Entry>, b: Seq<Entry>, c: Seq<Entry>)
    ensures
        (a + b) + c == a + (b + c),
{
    assert((a + b) + c =~= a + (b + c));
}

/// Merging loses nothing and adds nothing: the merged list has the entries
/// of the first, then those of the second.
pub proof fn lemma_combine_keeps_entries(a: Seq<Entry>, b: Seq<Entry>)
    ensures
        (a + b).len() == a.len() + b.len(),
        forall|i: int| 0 <= i < a.len() ==> (a + b)[i] == a[i],
        forall|i: int| 0 <= i < b.len() ==> (a + b)[a.len() + i] == b[i],
{
}

/// Two diagnostics without a fatal entry merge into a well-formed one.
pub proof fn lemma_combine_well_formed(a: Seq<Entry>, b: Seq<Entry>)
    requires
        well_formed(a),
        well_formed(b),
        !fatal(a),
        !fatal(b),
    ensures
        well_formed(a + b),
        !fatal(a + b),
{
    assert forall|i: int| 0 <= i < (a + b).len() implies !(#[trigger] (a + b)[i]).problem.spec_is_fatal() by {
        if i < a.len() {
            assert((a + b)[i] == a[i]);
            if a[i].problem.spec_is_fatal() {
                assert(a.len() == 1);
            }
        } else {
            assert((a + b)[i] == b[i - a.len()]);
            if b[i - a.len()].problem.spec_is_fatal() {
                assert(b.len() == 1);
            }
        }
    }
}

} // verus!
