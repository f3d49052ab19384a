//! The grammar of calls.
//!
//! A call is a plain identifier, optionally followed by a parenthesized list
//! of calls separated by commas. A comma may follow the last argument.

use vstd::prelude::*;
use crate::ast::{call_named, calls_view, Call, CallView};
use crate::diagnostic::{continued, lone, Diagnostic, Entry, Halt, Problem};
use crate::rust_syntax::{is_plain_ident, plain_ident};
use crate::token::{
    group_at, locate, peek_group, peek_punct, peek_word, punct_at, span_at, word_at, Delim, Span,
    Token,
};

verus! {

/// The name of the call that starts at `pos`: the word there, if it is an
/// identifier and no keyword. A name is never empty.
pub open spec fn call_name(tokens: Seq<Token>, pos: int) -> Option<Seq<char>> {
    match word_at(tokens, pos) {
        Some(word) => if word.len() > 0 && plain_ident(word) {
            Some(word)
        } else {
            None
        },
        None => None,
    }
}

/// The position behind the call that starts at `pos`: behind its name, or
/// behind the parentheses that follow the name.
pub open spec fn call_end(tokens: Seq<Token>, pos: int) -> int {
    if group_at(tokens, pos + 1, Delim::Paren) is Some {
        pos + 2
    } else {
        pos + 1
    }
}

/// The call that starts at `pos`, or the diagnostic and the position at
/// which the cursor stands when it is given up: `pos` where no name stands
/// there, behind the parentheses where an argument is malformed.
pub open spec fn call_at(tokens: Seq<Token>, pos: int, scope: Span) -> Result<
    CallView,
    (Seq<Entry>, int),
>
    decreases tokens, tokens.len() - pos, 0int,
{
    match call_name(tokens, pos) {
        None => Err((lone(span_at(tokens, pos, scope), Problem::ExpectedIdent), pos)),
        Some(name) => match group_at(tokens, pos + 1, Delim::Paren) {
            None => Ok(CallView { name, args: None }),
            Some(inner) => match call_args(inner, 0, tokens[pos + 1].spec_span()) {
                Ok(args) => Ok(CallView { name, args: Some(args) }),
                Err(e) => Err((e, pos + 2)),
            },
        },
    }
}

/// The arguments that fill `tokens` from `pos` to the end: calls separated
/// by commas.
pub open spec fn call_args(tokens: Seq<Token>, pos: int, scope: Span) -> Result<
    Seq<CallView>,
    Seq<Entry>,
>
    decreases tokens, tokens.len() - pos, 1int,
{
    if pos < 0 || pos >= tokens.len() {
        Ok(Seq::empty())
    } else {
        match call_at(tokens, pos, scope) {
            Err((e, _)) => Err(e),
            Ok(first) => {
                let next = call_end(tokens, pos);
                if next >= tokens.len() {
                    Ok(seq![first])
                } else if punct_at(tokens, next, ',') {
                    match call_args(tokens, next + 1, scope) {
                        Ok(rest) => Ok(seq![first] + rest),
                        Err(e) => Err(e),
                    }
                } else {
                    Err(lone(tokens[next].spec_span(), Problem::ExpectedComma))
                }
            },
        }
    }
}


/// The diagnostic of a call that fails is one entry, not fatal.
pub proof fn lemma_call_fails_softly(tokens: Seq<Token>, pos: int, scope: Span)
    ensures
        match call_at(tokens, pos, scope) {
            Ok(_) => true,
            Err((e, stop)) => e.len() == 1 && !e[0].problem.spec_is_fatal() && pos <= stop,
        },
        match call_args(tokens, pos, scope) {
            Ok(_) => true,
            Err(e) => e.len() == 1 && !e[0].problem.spec_is_fatal(),
        },
    decreases tokens, tokens.len() - pos,
{
    if call_name(tokens, pos) is Some {
        if let Some(inner) = group_at(tokens, pos + 1, Delim::Paren) {
            lemma_call_fails_softly(inner, 0, tokens[pos + 1].spec_span());
        }
    }
    if 0 <= pos < tokens.len() {
        let next = call_end(tokens, pos);
        if call_at(tokens, pos, scope) is Ok && next < tokens.len() {
            lemma_call_fails_softly(tokens, next + 1, scope);
        }
    }
}

/// Every call of a call that parses has a name.
pub proof fn lemma_call_named(tokens: Seq<Token>, pos: int, scope: Span)
    ensures
        match call_at(tokens, pos, scope) {
            Ok(call) => call_named(call),
            Err(_) => true,
        },
        match call_args(tokens, pos, scope) {
            Ok(args) => forall|i: int| 0 <= i < args.len() ==> call_named(#[trigger] args[i]),
            Err(_) => true,
        },
    decreases tokens, tokens.len() - pos,
{
    if call_name(tokens, pos) is Some {
        if let Some(inner) = group_at(tokens, pos + 1, Delim::Paren) {
            lemma_call_named(inner, 0, tokens[pos + 1].spec_span());
        }
    }
    if 0 <= pos < tokens.len() {
        let next = call_end(tokens, pos);
        if call_at(tokens, pos, scope) is Ok && next < tokens.len() {
            lemma_call_named(tokens, next + 1, scope);
        }
    }
}

impl Call {
    /// Parses the call that starts at `pos`. Returns the call and the
    /// position behind it.
    pub fn parse(tokens: &Vec<Token>, pos: usize, scope: Span) -> (r: Result<(Call, usize), Halt>)
        ensures
            match r {
                Ok((call, end)) => {
                    &&& call_at(tokens@, pos as int, scope) == Ok::<CallView, (Seq<Entry>, int)>(
                        call@,
                    )
                    &&& end == call_end(tokens@, pos as int)
                    &&& pos < end <= tokens.len()
                },
                Err(h) => call_at(tokens@, pos as int, scope) == Err::<
                    CallView,
                    (Seq<Entry>, int),
                >((h.diagnostic@, h.stop as int)) && pos <= h.stop && (pos <= tokens.len()
                    ==> h.stop <= tokens.len()),
            },
        decreases tokens@, tokens.len() - pos, 0int,
    {
        let name = match peek_word(tokens, pos) {
            Some(word) => {
                if !word.as_str().is_empty() && is_plain_ident(word) {
                    word.clone()
                } else {
                    return Err(Halt::at(locate(tokens, pos, scope), Problem::ExpectedIdent, pos));
                }
            },
            None => {
                return Err(Halt::at(locate(tokens, pos, scope), Problem::ExpectedIdent, pos));
            },
        };
        match peek_group(tokens, pos + 1, Delim::Paren) {
            None => Ok((Call { name, args: None }, pos + 1)),
            Some(inner) => {
                let inner_scope = tokens[pos + 1].span();
                match Call::parse_args(inner, inner_scope) {
                    Ok(args) => {
                        let call = Call { name, args: Some(args) };
                        proof {
                            assert(call@.args->0 =~= calls_view(args@));
                        }
                        Ok((call, pos + 2))
                    },
                    Err(diagnostic) => Err(Halt { diagnostic, stop: pos + 2 }),
                }
            },
        }
    }

    /// Parses an argument list: all of `tokens`, the content of a call's
    /// parentheses.
    pub fn parse_args(tokens: &Vec<Token>, scope: Span) -> (r: Result<Vec<Call>, Diagnostic>)
        ensures
            match r {
                Ok(args) => call_args(tokens@, 0, scope) == Ok::<Seq<CallView>, Seq<Entry>>(
                    calls_view(args@),
                ),
                Err(d) => call_args(tokens@, 0, scope) == Err::<Seq<CallView>, Seq<Entry>>(d@),
            },
        decreases tokens@, tokens.len() + 1, 0int,
    {
        let mut args: Vec<Call> = Vec::new();
        let mut pos: usize = 0;
        proof {
            assert(calls_view(args@) + Seq::<CallView>::empty() =~= Seq::<CallView>::empty());
            assert(calls_view(args@) =~= Seq::<CallView>::empty());
        }
        while pos < tokens.len()
            invariant
                pos <= tokens.len(),
                call_args(tokens@, 0, scope) == continued(
                    calls_view(args@),
                    call_args(tokens@, pos as int, scope),
                ),
            decreases tokens.len() - pos,
        {
            let ghost before = calls_view(args@);
            match Call::parse(tokens, pos, scope) {
                Err(h) => {
                    return Err(h.diagnostic);
                },
                Ok((call, next)) => {
                    let ghost first = call@;
                    args.push(call);
                    proof {
                        assert(calls_view(args@) =~= before + seq![first]);
                    }
                    if next >= tokens.len() {
                        proof {
                            assert(calls_view(args@) =~= before + seq![first]);
                        }
                        return Ok(args);
                    }
                    if !peek_punct(tokens, next, ',') {
                        return Err(Diagnostic::single(tokens[next].span(), Problem::ExpectedComma));
                    }
                    proof {
                        let rest = call_args(tokens@, next + 1, scope);
                        match rest {
                            Ok(more) => {
                                assert(before + (seq![first] + more) =~= (before + seq![first])
                                    + more);
                            },
                            Err(_) => {},
                        }
                    }
                    pos = next + 1;
                },
            }
        }
        proof {
            assert(calls_view(args@) + Seq::<CallView>::empty() =~= calls_view(args@));
        }
        Ok(args)
    }
}

} // verus!
