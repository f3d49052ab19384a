//! The grammar of response mappings.
//!
//! A block is a run of mappings:
//!
//! ```text
//! /// Doc
//! pub match Created {
//!     /// Doc
//!     201 => Body,
//!     404 => Missing
//! }
//! ```
//!
//! Each entry maps an integer status code to the path of a payload type.
//! Entries are separated by commas; a comma may follow the last. The first
//! malformed construct ends the parse. Two things are reported without
//! ending it, in the order found: an attribute on an entry that is no doc
//! comment, and a mapping without entries, which is a warning.

use vstd::prelude::*;
use crate::attribute::{
    attribute_texts, docs_among, render_attributes, sort_attributes, strays_among, texts,
};
use crate::call::call_name;
use crate::diagnostic::{after_item, continued, lone, Diagnostic, Entry, Problem};
use crate::rust_syntax::{
    attributes_at, find_attributes, find_path_end, find_visibility_end, integer_literal,
    is_integer_literal, is_plain_ident, path_end, visibility_end,
};
use crate::token::{
    group_at, literal_at, locate, pair_at, peek_group, peek_literal, peek_pair, peek_punct,
    peek_word, punct_at, render, rendered, same_text, span_at, word_at, Delim, Span, Token,
};

verus! {

/// One entry of a mapping: a status code and the type of its payload.
#[derive(Debug, PartialEq, Eq)]
pub struct Pair {
    /// The status code as written.
    pub code: String,
    /// The path of the payload type, as source text.
    pub data_ty: String,
    /// The doc comments on the entry, as source text.
    pub doc: Vec<String>,
}

/// The entries of a mapping, in source order.
#[derive(Debug, PartialEq, Eq)]
pub struct Body(pub Vec<Pair>);

/// One mapping.
#[derive(Debug, PartialEq, Eq)]
pub struct Match {
    /// The attributes on the mapping, as source text.
    pub attrs: Vec<String>,
    pub visibility: String,
    pub name: String,
    pub body: Body,
}

/// The mappings of one block, in source order.
#[derive(Debug, PartialEq, Eq)]
pub struct Block(pub Vec<Match>);

/// The value of a [`Pair`].
pub ghost struct PairView {
    pub code: Seq<char>,
    pub data_ty: Seq<char>,
    pub doc: Seq<Seq<char>>,
}

/// The value of a [`Match`].
pub ghost struct MatchView {
    pub attrs: Seq<Seq<char>>,
    pub visibility: Seq<char>,
    pub name: Seq<char>,
    pub body: Seq<PairView>,
}

impl View for Pair {
    type V = PairView;

    open spec fn view(&self) -> PairView {
        PairView { code: self.code@, data_ty: self.data_ty@, doc: texts(self.doc@) }
    }
}

/// The values of a sequence of entries.
pub open spec fn pairs_view(v: Seq<Pair>) -> Seq<PairView> {
    Seq::new(v.len(), |i: int| v[i]@)
}

impl View for Body {
    type V = Seq<PairView>;

    open spec fn view(&self) -> Seq<PairView> {
        pairs_view(self.0@)
    }
}

impl View for Match {
    type V = MatchView;

    open spec fn view(&self) -> MatchView {
        MatchView {
            attrs: texts(self.attrs@),
            visibility: self.visibility@,
            name: self.name@,
            body: self.body@,
        }
    }
}

/// The values of a sequence of mappings.
pub open spec fn matches_view(v: Seq<Match>) -> Seq<MatchView> {
    Seq::new(v.len(), |i: int| v[i]@)
}

impl View for Block {
    type V = Seq<MatchView>;

    open spec fn view(&self) -> Seq<MatchView> {
        matches_view(self.0@)
    }
}

/// What the entry at `pos` reports without failing: one entry for each of
/// its attributes that is no doc comment.
pub open spec fn pair_notes(tokens: Seq<Token>, pos: int) -> Seq<Entry> {
    match attributes_at(tokens, pos) {
        Some((paths, _)) => strays_among(tokens, pos, paths, paths.len() as int),
        None => Seq::empty(),
    }
}

/// The entry that starts at `pos` and the position behind it.
#[verifier::opaque]
pub open spec fn pair_parse(tokens: Seq<Token>, pos: int, scope: Span) -> Result<
    (PairView, int),
    Seq<Entry>,
> {
    match attributes_at(tokens, pos) {
        None => Err(lone(span_at(tokens, pos, scope), Problem::ExpectedAttribute)),
        Some((paths, code_at)) => match literal_at(tokens, code_at) {
            None => Err(lone(span_at(tokens, code_at, scope), Problem::ExpectedInteger)),
            Some(code) => if !integer_literal(code) {
                Err(lone(span_at(tokens, code_at, scope), Problem::ExpectedInteger))
            } else if !pair_at(tokens, code_at + 1, '=', '>') {
                Err(lone(span_at(tokens, code_at + 1, scope), Problem::ExpectedFatArrow))
            } else {
                match path_end(tokens, code_at + 3) {
                    None => Err(lone(span_at(tokens, code_at + 3, scope), Problem::ExpectedPath)),
                    Some(end) => Ok(
                        (
                            PairView {
                                code,
                                data_ty: rendered(tokens.subrange(code_at + 3, end)),
                                doc: docs_among(tokens, pos, paths, paths.len() as int),
                            },
                            end,
                        ),
                    ),
                }
            },
        },
    }
}

/// An entry that parses ends inside the tokens, behind where it began.
pub proof fn lemma_pair_end(tokens: Seq<Token>, pos: int, scope: Span)
    ensures
        match pair_parse(tokens, pos, scope) {
            Ok((_, end)) => 0 <= pos < end <= tokens.len(),
            Err(e) => e.len() == 1,
        },
{
    reveal(pair_parse);
}

/// The entries that fill `tokens` from `pos` to the end, and before them
/// what they report without failing.
pub open spec fn pairs_from(tokens: Seq<Token>, pos: int, scope: Span) -> (
    Seq<Entry>,
    Result<Seq<PairView>, Seq<Entry>>,
)
    decreases tokens.len() - pos,
{
    if pos < 0 || pos >= tokens.len() {
        (Seq::empty(), Ok(Seq::empty()))
    } else {
        let notes = pair_notes(tokens, pos);
        match pair_parse(tokens, pos, scope) {
            Err(e) => (notes, Err(e)),
            Ok((first, end)) => {
                proof {
                    lemma_pair_end(tokens, pos, scope);
                }
                if end >= tokens.len() {
                    (notes, Ok(seq![first]))
                } else if punct_at(tokens, end, ',') {
                    let rest = pairs_from(tokens, end + 1, scope);
                    (notes + rest.0, after_item(first, rest.1))
                } else {
                    (notes, Err(lone(tokens[end].spec_span(), Problem::ExpectedComma)))
                }
            },
        }
    }
}

/// The position of the word `match` in the mapping that starts at `pos`.
pub open spec fn keyword_at(tokens: Seq<Token>, pos: int) -> Option<int> {
    match attributes_at(tokens, pos) {
        None => None,
        Some((_, visibility_at)) => visibility_end(tokens, visibility_at),
    }
}

/// The mapping that starts at `pos` and the position behind it, and before
/// them what the mapping reports without failing: what its entries
/// report, and a warning at its name where it has no entry.
#[verifier::opaque]
pub open spec fn match_parse(tokens: Seq<Token>, pos: int, scope: Span) -> (
    Seq<Entry>,
    Result<(MatchView, int), Seq<Entry>>,
) {
    match attributes_at(tokens, pos) {
        None => (Seq::empty(), Err(lone(span_at(tokens, pos, scope), Problem::ExpectedAttribute))),
        Some((paths, visibility_at)) => match visibility_end(tokens, visibility_at) {
            None => (
                Seq::empty(),
                Err(lone(span_at(tokens, visibility_at, scope), Problem::ExpectedVisibility)),
            ),
            Some(at) => match word_at(tokens, at) {
                None => (
                    Seq::empty(),
                    Err(lone(span_at(tokens, at, scope), Problem::ExpectedIdent)),
                ),
                Some(word) => if word != "match"@ {
                    (Seq::empty(), Err(lone(tokens[at].spec_span(), Problem::UnknownOperation)))
                } else {
                    match call_name(tokens, at + 1) {
                        None => (
                            Seq::empty(),
                            Err(lone(span_at(tokens, at + 1, scope), Problem::ExpectedIdent)),
                        ),
                        Some(name) => match group_at(tokens, at + 2, Delim::Brace) {
                            None => (
                                Seq::empty(),
                                Err(lone(span_at(tokens, at + 2, scope), Problem::ExpectedBraces)),
                            ),
                            Some(inner) => {
                                let entries = pairs_from(inner, 0, tokens[at + 2].spec_span());
                                match entries.1 {
                                    Err(e) => (entries.0, Err(e)),
                                    Ok(body) => (
                                        if body.len() == 0 {
                                            entries.0.push(
                                                Entry {
                                                    span: tokens[at + 1].spec_span(),
                                                    problem: Problem::EmptyMatch,
                                                },
                                            )
                                        } else {
                                            entries.0
                                        },
                                        Ok(
                                            (
                                                MatchView {
                                                    attrs: attribute_texts(
                                                        tokens,
                                                        pos,
                                                        paths.len() as int,
                                                    ),
                                                    visibility: rendered(
                                                        tokens.subrange(visibility_at, at),
                                                    ),
                                                    name,
                                                    body,
                                                },
                                                at + 3,
                                            ),
                                        ),
                                    ),
                                }
                            },
                        },
                    }
                },
            },
        },
    }
}

/// A mapping that parses ends inside the tokens, behind where it began.
pub proof fn lemma_match_end(tokens: Seq<Token>, pos: int, scope: Span)
    ensures
        match match_parse(tokens, pos, scope).1 {
            Ok((_, end)) => 0 <= pos < end <= tokens.len(),
            Err(_) => true,
        },
{
    reveal(match_parse);
}

/// The mappings that fill `tokens` from `pos` to the end, and before them
/// what they report without failing.
pub open spec fn block_from(tokens: Seq<Token>, pos: int, scope: Span) -> (
    Seq<Entry>,
    Result<Seq<MatchView>, Seq<Entry>>,
)
    decreases tokens.len() - pos,
{
    if pos < 0 || pos >= tokens.len() {
        (Seq::empty(), Ok(Seq::empty()))
    } else {
        let first = match_parse(tokens, pos, scope);
        match first.1 {
            Err(e) => (first.0, Err(e)),
            Ok((found, end)) => {
                proof {
                    lemma_match_end(tokens, pos, scope);
                }
                let rest = block_from(tokens, end, scope);
                (first.0 + rest.0, after_item(found, rest.1))
            },
        }
    }
}

/// A mapping without entries parses, and the last thing it reports is a
/// warning at its name.
pub proof fn lemma_empty_match_is_advisory(tokens: Seq<Token>, pos: int, scope: Span)
    requires
        match match_parse(tokens, pos, scope).1 {
            Ok((found, _)) => found.body.len() == 0,
            Err(_) => false,
        },
    ensures
        keyword_at(tokens, pos) is Some,
        match_parse(tokens, pos, scope).0.len() > 0,
        match_parse(tokens, pos, scope).0.last() == (Entry {
            span: tokens[keyword_at(tokens, pos)->0 + 1].spec_span(),
            problem: Problem::EmptyMatch,
        }),
        Problem::EmptyMatch.spec_is_advisory(),
        !Problem::EmptyMatch.spec_is_fatal(),
{
    reveal(match_parse);
}

impl Pair {
    /// Parses the entry that starts at `pos`. Returns the entry and the
    /// position behind it; what the entry reports without failing is
    /// appended to `notes`.
    pub fn parse(tokens: &Vec<Token>, pos: usize, scope: Span, notes: &mut Vec<Entry>) -> (r:
        Result<(Pair, usize), Diagnostic>)
        ensures
            final(notes)@ == old(notes)@ + pair_notes(tokens@, pos as int),
            match r {
                Ok((pair, end)) => pair_parse(tokens@, pos as int, scope) == Ok::<
                    (PairView, int),
                    Seq<Entry>,
                >((pair@, end as int)) && pos < end <= tokens.len(),
                Err(d) => pair_parse(tokens@, pos as int, scope) == Err::<
                    (PairView, int),
                    Seq<Entry>,
                >(d@),
            },
    {
        proof {
            reveal(pair_parse);
            assert(notes@ + Seq::<Entry>::empty() =~= notes@);
        }
        if pos > tokens.len() {
            return Err(Diagnostic::single(scope, Problem::ExpectedAttribute));
        }
        let (paths, code_at) = match find_attributes(tokens, pos) {
            Some(found) => found,
            None => {
                return Err(
                    Diagnostic::single(locate(tokens, pos, scope), Problem::ExpectedAttribute),
                );
            },
        };
        proof {
            assert(paths.deep_view().len() == paths.len());
        }
        let doc = sort_attributes(tokens, pos, &paths, notes);
        let code = match peek_literal(tokens, code_at) {
            Some(text) => {
                if is_integer_literal(text) {
                    text.clone()
                } else {
                    return Err(
                        Diagnostic::single(
                            locate(tokens, code_at, scope),
                            Problem::ExpectedInteger,
                        ),
                    );
                }
            },
            None => {
                return Err(
                    Diagnostic::single(locate(tokens, code_at, scope), Problem::ExpectedInteger),
                );
            },
        };
        if !peek_pair(tokens, code_at + 1, '=', '>') {
            return Err(
                Diagnostic::single(locate(tokens, code_at + 1, scope), Problem::ExpectedFatArrow),
            );
        }
        let end = match find_path_end(tokens, code_at + 3) {
            Some(end) => end,
            None => {
                return Err(
                    Diagnostic::single(locate(tokens, code_at + 3, scope), Problem::ExpectedPath),
                );
            },
        };
        let data_ty = render(tokens, code_at + 3, end);
        Ok((Pair { code, data_ty, doc }, end))
    }
}

impl Body {
    /// Parses the entries of a mapping: all of `tokens`, the content of
    /// the mapping's braces. What the entries report without failing is
    /// appended to `notes`.
    pub fn parse(tokens: &Vec<Token>, scope: Span, notes: &mut Vec<Entry>) -> (r: Result<
        Body,
        Diagnostic,
    >)
        ensures
            final(notes)@ == old(notes)@ + pairs_from(tokens@, 0, scope).0,
            match r {
                Ok(body) => pairs_from(tokens@, 0, scope).1 == Ok::<Seq<PairView>, Seq<Entry>>(
                    body@,
                ),
                Err(d) => pairs_from(tokens@, 0, scope).1 == Err::<Seq<PairView>, Seq<Entry>>(d@),
            },
    {
        let ghost start = notes@;
        let ghost whole = pairs_from(tokens@, 0, scope);
        let mut list: Vec<Pair> = Vec::new();
        let mut at: usize = 0;
        proof {
            match whole.1 {
                Ok(more) => {
                    assert(pairs_view(list@) + more =~= more);
                },
                Err(_) => {},
            }
        }
        while at < tokens.len()
            invariant
                whole == pairs_from(tokens@, 0, scope),
                start == old(notes)@,
                whole.1 == continued(pairs_view(list@), pairs_from(tokens@, at as int, scope).1),
                start + whole.0 == notes@ + pairs_from(tokens@, at as int, scope).0,
            decreases tokens.len() - at,
        {
            let ghost before = pairs_view(list@);
            let ghost gathered = notes@;
            let ghost own = pair_notes(tokens@, at as int);
            match Pair::parse(tokens, at, scope, notes) {
                Err(d) => {
                    return Err(d);
                },
                Ok((pair, end)) => {
                    let ghost first = pair@;
                    list.push(pair);
                    proof {
                        assert(pairs_view(list@) =~= before + seq![first]);
                    }
                    if end >= tokens.len() {
                        return Ok(Body(list));
                    }
                    if !peek_punct(tokens, end, ',') {
                        return Err(Diagnostic::single(tokens[end].span(), Problem::ExpectedComma));
                    }
                    proof {
                        let rest = pairs_from(tokens@, end + 1, scope);
                        assert(gathered + (own + rest.0) =~= (gathered + own) + rest.0);
                        match rest.1 {
                            Ok(more) => {
                                assert(before + (seq![first] + more) =~= (before + seq![first])
                                    + more);
                            },
                            Err(_) => {},
                        }
                    }
                    at = end + 1;
                },
            }
        }
        proof {
            assert(pairs_view(list@) + Seq::<PairView>::empty() =~= pairs_view(list@));
            assert(notes@ + Seq::<Entry>::empty() =~= notes@);
        }
        Ok(Body(list))
    }
}

impl Match {
    /// Parses the mapping that starts at `pos`. Returns the mapping and the
    /// position behind it; what the mapping reports without failing is
    /// appended to `notes`.
    pub fn parse(tokens: &Vec<Token>, pos: usize, scope: Span, notes: &mut Vec<Entry>) -> (r:
        Result<(Match, usize), Diagnostic>)
        ensures
            final(notes)@ == old(notes)@ + match_parse(tokens@, pos as int, scope).0,
            match r {
                Ok((found, end)) => match_parse(tokens@, pos as int, scope).1 == Ok::<
                    (MatchView, int),
                    Seq<Entry>,
                >((found@, end as int)) && pos < end <= tokens.len(),
                Err(d) => match_parse(tokens@, pos as int, scope).1 == Err::<
                    (MatchView, int),
                    Seq<Entry>,
                >(d@),
            },
    {
        proof {
            reveal(match_parse);
            assert(notes@ + Seq::<Entry>::empty() =~= notes@);
        }
        if pos > tokens.len() {
            return Err(Diagnostic::single(scope, Problem::ExpectedAttribute));
        }
        let (paths, visibility_at) = match find_attributes(tokens, pos) {
            Some(found) => found,
            None => {
                return Err(
                    Diagnostic::single(locate(tokens, pos, scope), Problem::ExpectedAttribute),
                );
            },
        };
        proof {
            assert(paths.deep_view().len() == paths.len());
        }
        let at = match find_visibility_end(tokens, visibility_at) {
            Some(end) => end,
            None => {
                return Err(
                    Diagnostic::single(
                        locate(tokens, visibility_at, scope),
                        Problem::ExpectedVisibility,
                    ),
                );
            },
        };
        match peek_word(tokens, at) {
            None => {
                return Err(Diagnostic::single(locate(tokens, at, scope), Problem::ExpectedIdent));
            },
            Some(word) => {
                if !same_text(word, "match") {
                    return Err(Diagnostic::single(tokens[at].span(), Problem::UnknownOperation));
                }
            },
        }
        let name = match peek_word(tokens, at + 1) {
            Some(word) => {
                if !word.as_str().is_empty() && is_plain_ident(word) {
                    word.clone()
                } else {
                    return Err(
                        Diagnostic::single(locate(tokens, at + 1, scope), Problem::ExpectedIdent),
                    );
                }
            },
            None => {
                return Err(
                    Diagnostic::single(locate(tokens, at + 1, scope), Problem::ExpectedIdent),
                );
            },
        };
        let inner = match peek_group(tokens, at + 2, Delim::Brace) {
            Some(inner) => inner,
            None => {
                return Err(
                    Diagnostic::single(locate(tokens, at + 2, scope), Problem::ExpectedBraces),
                );
            },
        };
        let body = match Body::parse(inner, tokens[at + 2].span(), notes) {
            Ok(body) => body,
            Err(d) => {
                return Err(d);
            },
        };
        if body.0.len() == 0 {
            notes.push(Entry { span: tokens[at + 1].span(), problem: Problem::EmptyMatch });
        }
        let attrs = render_attributes(tokens, pos, paths.len());
        let visibility = render(tokens, visibility_at, at);
        Ok((Match { attrs, visibility, name, body }, at + 3))
    }
}

impl Block {
    /// Parses a block of mappings: all of `tokens`. What the mappings
    /// report without failing is appended to `notes`, whether the parse
    /// fails or not.
    pub fn parse(tokens: &Vec<Token>, scope: Span, notes: &mut Vec<Entry>) -> (r: Result<
        Block,
        Diagnostic,
    >)
        ensures
            final(notes)@ == old(notes)@ + block_from(tokens@, 0, scope).0,
            match r {
                Ok(block) => block_from(tokens@, 0, scope).1 == Ok::<Seq<MatchView>, Seq<Entry>>(
                    block@,
                ),
                Err(d) => block_from(tokens@, 0, scope).1 == Err::<Seq<MatchView>, Seq<Entry>>(d@),
            },
    {
        let ghost start = notes@;
        let ghost whole = block_from(tokens@, 0, scope);
        let mut list: Vec<Match> = Vec::new();
        let mut at: usize = 0;
        proof {
            match whole.1 {
                Ok(more) => {
                    assert(matches_view(list@) + more =~= more);
                },
                Err(_) => {},
            }
        }
        while at < tokens.len()
            invariant
                whole == block_from(tokens@, 0, scope),
                start == old(notes)@,
                whole.1 == continued(matches_view(list@), block_from(tokens@, at as int, scope).1),
                start + whole.0 == notes@ + block_from(tokens@, at as int, scope).0,
            decreases tokens.len() - at,
        {
            let ghost before = matches_view(list@);
            let ghost gathered = notes@;
            let ghost own = match_parse(tokens@, at as int, scope).0;
            match Match::parse(tokens, at, scope, notes) {
                Err(d) => {
                    return Err(d);
                },
                Ok((found, end)) => {
                    let ghost first = found@;
                    list.push(found);
                    proof {
                        assert(matches_view(list@) =~= before + seq![first]);
                        let rest = block_from(tokens@, end as int, scope);
                        assert(gathered + (own + rest.0) =~= (gathered + own) + rest.0);
                        match rest.1 {
                            Ok(more) => {
                                assert(before + (seq![first] + more) =~= (before + seq![first])
                                    + more);
                            },
                            Err(_) => {},
                        }
                    }
                    at = end;
                },
            }
        }
        proof {
            assert(matches_view(list@) + Seq::<MatchView>::empty() =~= matches_view(list@));
            assert(notes@ + Seq::<Entry>::empty() =~= notes@);
        }
        Ok(Block(list))
    }

    /// The code that the block expands to. Nothing is generated for a
    /// response mapping: the expansion is empty.
    pub fn expand(&self) -> (r: Vec<Token>)
        ensures
            r@.len() == 0,
    {
        Vec::new()
    }
}

} // verus!
