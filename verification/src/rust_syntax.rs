//! The parts of Rust's own grammar that the declarations borrow: plain
//! identifiers, visibility qualifiers, types, arguments, paths, attributes
//! and literals. `syn` decides each of them on source text; nothing of
//! their grammar is proved here. This module names what `syn` answers and
//! turns the answers into positions in a token sequence.
//!
//! `syn` reads the text through a lexer and panics on a literal that it
//! cannot classify. Each question is therefore put with the lexer of
//! `proc-macro2` itself in force, not the compiler's, and that lexer is held
//! at a release that knows no literal form beyond those of `syn`. So the
//! same text gets the same answer in every process, inside a macro
//! expansion and outside, and what a later Rust calls a literal and `syn`
//! does not is no literal here: it makes the construct around it malformed.

use vstd::prelude::*;
use crate::token::{rendered, render, Token};

verus! {

/// What `syn` answers when asked whether `text` is one identifier that is
/// no keyword.
pub uninterp spec fn plain_ident(text: Seq<char>) -> bool;

/// What `syn` answers when asked for a visibility qualifier at the start of
/// `text`: the number of token trees behind the qualifier, or `None` where
/// the text does not lex or the qualifier is malformed.
pub uninterp spec fn visibility_rest(text: Seq<char>) -> Option<usize>;

/// What `syn` answers when asked for a type at the start of `text`: the
/// number of token trees behind the type, or `None` where the text does not
/// lex or does not begin with a type.
pub uninterp spec fn type_rest(text: Seq<char>) -> Option<usize>;

/// What `syn` answers when asked for a path at the start of `text`: the
/// number of token trees behind the path, or `None` where the text does not
/// lex or does not begin with a path.
pub uninterp spec fn path_rest(text: Seq<char>) -> Option<usize>;

/// What `syn` answers when asked for a function-pointer argument at the
/// start of `text`: the argument's name, if it has one, and the number of
/// token trees behind the argument; `None` where the text does not lex or
/// does not begin with an argument.
pub uninterp spec fn argument_parts(text: Seq<char>) -> Option<(Option<Seq<char>>, usize)>;

/// What `syn` answers when asked for the outer attributes at the start of
/// `text`: for each attribute the segments of its path, and the number of
/// token trees behind the last attribute; `None` where the text does not
/// lex or an attribute is malformed.
pub uninterp spec fn attribute_paths(text: Seq<char>) -> Option<(Seq<Seq<Seq<char>>>, usize)>;

/// What `syn` answers when asked whether `text` is one integer literal.
pub uninterp spec fn integer_literal(text: Seq<char>) -> bool;

/// What `syn` answers when asked for the value of the string literal
/// `text`: the string that the literal denotes, or `None` where `text` is
/// no string literal.
pub uninterp spec fn string_literal(text: Seq<char>) -> Option<Seq<char>>;

/// The text of an optional string.
pub open spec fn text_of(name: Option<String>) -> Option<Seq<char>> {
    match name {
        Some(s) => Some(s@),
        None => None,
    }
}

/// Calls `syn::parse_str::<syn::Ident>`, which lexes `text` and accepts it
/// when it is exactly one identifier outside `syn`'s list of keywords. The
/// contract only names the answer.
#[verifier::external_body]
pub(crate) fn syn_plain_ident(text: &str) -> (r: bool)
    ensures
        r == plain_ident(text@),
{
    proc_macro2::fallback::force();
    let answer = syn::parse_str::<syn::Ident>(text).is_ok();
    proc_macro2::fallback::unforce();
    answer
}

/// Runs `syn`'s parser for `syn::Visibility` on `text` and counts the token
/// trees that it leaves. The contract only names the answer.
#[verifier::external_body]
pub(crate) fn syn_visibility_rest(text: &str) -> (r: Option<usize>)
    ensures
        r == visibility_rest(text@),
{
    let grammar = |input: syn::parse::ParseStream| -> syn::Result<proc_macro2::TokenStream> {
        input.parse::<syn::Visibility>()?;
        input.parse::<proc_macro2::TokenStream>()
    };
    proc_macro2::fallback::force();
    let answer = syn::parse::Parser::parse_str(grammar, text).ok();
    proc_macro2::fallback::unforce();
    answer.map(|rest| rest.into_iter().count())
}

/// Runs `syn`'s parser for `syn::Type` on `text` and counts the token trees
/// that it leaves. The contract only names the answer.
#[verifier::external_body]
pub(crate) fn syn_type_rest(text: &str) -> (r: Option<usize>)
    ensures
        r == type_rest(text@),
{
    let grammar = |input: syn::parse::ParseStream| -> syn::Result<proc_macro2::TokenStream> {
        input.parse::<syn::Type>()?;
        input.parse::<proc_macro2::TokenStream>()
    };
    proc_macro2::fallback::force();
    let answer = syn::parse::Parser::parse_str(grammar, text).ok();
    proc_macro2::fallback::unforce();
    answer.map(|rest| rest.into_iter().count())
}

/// Runs `syn`'s parser for `syn::Path` on `text` and counts the token trees
/// that it leaves. The contract only names the answer.
#[verifier::external_body]
pub(crate) fn syn_path_rest(text: &str) -> (r: Option<usize>)
    ensures
        r == path_rest(text@),
{
    let grammar = |input: syn::parse::ParseStream| -> syn::Result<proc_macro2::TokenStream> {
        input.parse::<syn::Path>()?;
        input.parse::<proc_macro2::TokenStream>()
    };
    proc_macro2::fallback::force();
    let answer = syn::parse::Parser::parse_str(grammar, text).ok();
    proc_macro2::fallback::unforce();
    answer.map(|rest| rest.into_iter().count())
}

/// Runs `syn`'s parser for `syn::BareFnArg` on `text`, hands out the name
/// that it found and counts the token trees that it leaves. The contract
/// only names the answer.
#[verifier::external_body]
pub(crate) fn syn_argument_parts(text: &str) -> (r: Option<(Option<String>, usize)>)
    ensures
        match r {
            Some((name, rest)) => argument_parts(text@) == Some((text_of(name), rest)),
            None => argument_parts(text@) is None,
        },
{
    let grammar = |input: syn::parse::ParseStream| -> syn::Result<(syn::BareFnArg, proc_macro2::TokenStream)> {
        Ok((input.parse()?, input.parse()?))
    };
    proc_macro2::fallback::force();
    let answer = syn::parse::Parser::parse_str(grammar, text).ok();
    proc_macro2::fallback::unforce();
    let (arg, rest) = answer?;
    Some((arg.name.map(|named| named.0.to_string()), rest.into_iter().count()))
}

/// Runs `syn::Attribute::parse_outer` on `text`, hands out the identifiers
/// of each attribute's path and counts the token trees that it leaves. The
/// contract only names the answer.
#[verifier::external_body]
pub(crate) fn syn_attribute_paths(text: &str) -> (r: Option<(Vec<Vec<String>>, usize)>)
    ensures
        match r {
            Some((paths, rest)) => attribute_paths(text@) == Some((paths.deep_view(), rest)),
            None => attribute_paths(text@) is None,
        },
{
    let grammar = |input: syn::parse::ParseStream| -> syn::Result<(Vec<syn::Attribute>, proc_macro2::TokenStream)> {
        Ok((input.call(syn::Attribute::parse_outer)?, input.parse()?))
    };
    proc_macro2::fallback::force();
    let answer = syn::parse::Parser::parse_str(grammar, text).ok();
    proc_macro2::fallback::unforce();
    let (attrs, rest) = answer?;
    let paths = attrs.iter().map(|a| a.path.segments.iter().map(|s| s.ident.to_string()).collect());
    Some((paths.collect(), rest.into_iter().count()))
}

/// Calls `syn::parse_str::<syn::LitInt>`, which lexes `text` and accepts it
/// when it is exactly one integer literal. The contract only names the
/// answer.
#[verifier::external_body]
pub(crate) fn syn_integer_literal(text: &str) -> (r: bool)
    ensures
        r == integer_literal(text@),
{
    proc_macro2::fallback::force();
    let answer = syn::parse_str::<syn::LitInt>(text).is_ok();
    proc_macro2::fallback::unforce();
    answer
}

/// Calls `syn::parse_str::<syn::LitStr>` and then `syn::LitStr::value`,
/// which gives the string that a string literal denotes, escapes resolved.
/// The contract only names the answer.
#[verifier::external_body]
pub(crate) fn syn_string_literal(text: &str) -> (r: Option<String>)
    ensures
        text_of(r) == string_literal(text@),
{
    proc_macro2::fallback::force();
    let answer = syn::parse_str::<syn::LitStr>(text).ok().map(|lit| lit.value());
    proc_macro2::fallback::unforce();
    answer
}

/// The position behind a construct that starts at `pos` and leaves `rest`
/// of the `len` tokens unread; `None` where nothing was recognised or the
/// count does not fit the sequence.
pub open spec fn end_after(len: int, pos: int, rest: Option<usize>) -> Option<int> {
    match rest {
        Some(k) => if 0 <= pos && k <= len - pos {
            Some(len - k)
        } else {
            None
        },
        None => None,
    }
}

/// The tokens from `pos` on.
pub open spec fn rest_of(tokens: Seq<Token>, pos: int) -> Seq<Token> {
    tokens.subrange(pos, tokens.len() as int)
}

/// The position behind the visibility qualifier that starts at `pos`. A
/// qualifier may be empty, so the position may be `pos` itself.
pub open spec fn visibility_end(tokens: Seq<Token>, pos: int) -> Option<int>
    recommends
        0 <= pos <= tokens.len(),
{
    end_after(tokens.len() as int, pos, visibility_rest(rendered(rest_of(tokens, pos))))
}

/// The position behind the type that starts at `pos`. A type has at least
/// one token.
pub open spec fn type_end(tokens: Seq<Token>, pos: int) -> Option<int>
    recommends
        0 <= pos <= tokens.len(),
{
    match end_after(tokens.len() as int, pos, type_rest(rendered(rest_of(tokens, pos)))) {
        Some(end) => if end > pos {
            Some(end)
        } else {
            None
        },
        None => None,
    }
}

/// The position behind the path that starts at `pos`. A path has at least
/// one token.
pub open spec fn path_end(tokens: Seq<Token>, pos: int) -> Option<int>
    recommends
        0 <= pos <= tokens.len(),
{
    match end_after(tokens.len() as int, pos, path_rest(rendered(rest_of(tokens, pos)))) {
        Some(end) => if end > pos {
            Some(end)
        } else {
            None
        },
        None => None,
    }
}

/// The name and the end of the argument that starts at `pos`. An argument
/// has at least one token.
pub open spec fn argument_at(tokens: Seq<Token>, pos: int) -> Option<(Option<Seq<char>>, int)>
    recommends
        0 <= pos <= tokens.len(),
{
    match argument_parts(rendered(rest_of(tokens, pos))) {
        Some((name, rest)) => match end_after(tokens.len() as int, pos, Some(rest)) {
            Some(end) => if end > pos {
                Some((name, end))
            } else {
                None
            },
            None => None,
        },
        None => None,
    }
}

/// The paths of the outer attributes that start at `pos`, and the position
/// behind the last of them. Each attribute is a `#` and a bracketed group,
/// so the attributes take two tokens each.
pub open spec fn attributes_at(tokens: Seq<Token>, pos: int) -> Option<(Seq<Seq<Seq<char>>>, int)>
    recommends
        0 <= pos <= tokens.len(),
{
    match attribute_paths(rendered(rest_of(tokens, pos))) {
        Some((paths, rest)) => match end_after(tokens.len() as int, pos, Some(rest)) {
            Some(end) => if end == pos + 2 * paths.len() {
                Some((paths, end))
            } else {
                None
            },
            None => None,
        },
        None => None,
    }
}

/// Turns a count of unread tokens into a position: the construct that
/// starts at `pos` of `len` tokens and leaves `rest` of them unread ends
/// at `len - rest`. A count that does not fit gives `None`.
pub fn end_of(len: usize, pos: usize, rest: Option<usize>) -> (r: Option<usize>)
    requires
        pos <= len,
    ensures
        match r {
            Some(end) => end_after(len as int, pos as int, rest) == Some(end as int) && pos <= end
                <= len,
            None => end_after(len as int, pos as int, rest) is None,
        },
{
    match rest {
        Some(k) => if k <= len - pos {
            Some(len - k)
        } else {
            None
        },
        None => None,
    }
}

/// Whether `text` is an identifier that is no keyword.
pub fn is_plain_ident(text: &String) -> (r: bool)
    ensures
        r == plain_ident(text@),
{
    syn_plain_ident(text.as_str())
}

/// Finds the end of the visibility qualifier at `pos`.
pub fn find_visibility_end(tokens: &Vec<Token>, pos: usize) -> (r: Option<usize>)
    requires
        pos <= tokens.len(),
    ensures
        match r {
            Some(end) => visibility_end(tokens@, pos as int) == Some(end as int) && pos <= end
                <= tokens.len(),
            None => visibility_end(tokens@, pos as int) is None,
        },
{
    let text = render(tokens, pos, tokens.len());
    end_of(tokens.len(), pos, syn_visibility_rest(text.as_str()))
}

/// Finds the end of the type at `pos`.
pub fn find_type_end(tokens: &Vec<Token>, pos: usize) -> (r: Option<usize>)
    requires
        pos <= tokens.len(),
    ensures
        match r {
            Some(end) => type_end(tokens@, pos as int) == Some(end as int) && pos < end
                <= tokens.len(),
            None => type_end(tokens@, pos as int) is None,
        },
{
    let text = render(tokens, pos, tokens.len());
    match end_of(tokens.len(), pos, syn_type_rest(text.as_str())) {
        Some(end) => if end > pos {
            Some(end)
        } else {
            None
        },
        None => None,
    }
}

/// Finds the end of the path at `pos`.
pub fn find_path_end(tokens: &Vec<Token>, pos: usize) -> (r: Option<usize>)
    requires
        pos <= tokens.len(),
    ensures
        match r {
            Some(end) => path_end(tokens@, pos as int) == Some(end as int) && pos < end
                <= tokens.len(),
            None => path_end(tokens@, pos as int) is None,
        },
{
    let text = render(tokens, pos, tokens.len());
    match end_of(tokens.len(), pos, syn_path_rest(text.as_str())) {
        Some(end) => if end > pos {
            Some(end)
        } else {
            None
        },
        None => None,
    }
}

/// Finds the name and the end of the argument at `pos`.
pub fn find_argument(tokens: &Vec<Token>, pos: usize) -> (r: Option<(Option<String>, usize)>)
    requires
        pos <= tokens.len(),
    ensures
        match r {
            Some((name, end)) => argument_at(tokens@, pos as int) == Some(
                (text_of(name), end as int),
            ) && pos < end <= tokens.len(),
            None => argument_at(tokens@, pos as int) is None,
        },
{
    let text = render(tokens, pos, tokens.len());
    match syn_argument_parts(text.as_str()) {
        Some((name, rest)) => match end_of(tokens.len(), pos, Some(rest)) {
            Some(end) => if end > pos {
                Some((name, end))
            } else {
                None
            },
            None => None,
        },
        None => None,
    }
}

/// Finds the paths and the end of the outer attributes at `pos`.
pub fn find_attributes(tokens: &Vec<Token>, pos: usize) -> (r: Option<(Vec<Vec<String>>, usize)>)
    requires
        pos <= tokens.len(),
    ensures
        match r {
            Some((paths, end)) => attributes_at(tokens@, pos as int) == Some(
                (paths.deep_view(), end as int),
            ) && pos <= end <= tokens.len() && end == pos + 2 * paths.len(),
            None => attributes_at(tokens@, pos as int) is None,
        },
{
    let text = render(tokens, pos, tokens.len());
    match syn_attribute_paths(text.as_str()) {
        Some((paths, rest)) => match end_of(tokens.len(), pos, Some(rest)) {
            Some(end) => {
                let taken = end - pos;
                if paths.len() <= taken && taken - paths.len() == paths.len() {
                    proof {
                        assert(paths.deep_view().len() == paths.len());
                    }
                    Some((paths, end))
                } else {
                    proof {
                        assert(paths.deep_view().len() == paths.len());
                    }
                    None
                }
            },
            None => None,
        },
        None => None,
    }
}

/// Whether `text` is an integer literal.
pub fn is_integer_literal(text: &String) -> (r: bool)
    ensures
        r == integer_literal(text@),
{
    syn_integer_literal(text.as_str())
}

/// The string that the string literal `text` denotes.
pub fn string_literal_value(text: &String) -> (r: Option<String>)
    ensures
        text_of(r) == string_literal(text@),
{
    syn_string_literal(text.as_str())
}

} // verus!
