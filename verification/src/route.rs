//! The grammar of route mappings.
//!
//! A block is a run of mappings:
//!
//! ```text
//! pub match Pages {
//!     "/" => index,
//!     "/*/end" => last
//! }
//! ```
//!
//! Each entry maps a path pattern, written as a string literal, to the
//! path of its handler. Entries are separated by commas; a comma may
//! follow the last. The first malformed construct ends the parse. Every
//! pattern must be a regular expression: `check` reports the first that is
//! not, at its literal.

use vstd::prelude::*;
use crate::attribute::{attribute_texts, render_attributes, texts};
use crate::call::call_name;
use crate::diagnostic::{after_item, continued, lone, Diagnostic, Entry, Problem};
use crate::pattern::{pattern_fault, regex_fault, verdict, PatternFault};
use crate::rust_syntax::{
    attributes_at, find_attributes, find_path_end, find_visibility_end, is_plain_ident, path_end,
    string_literal, string_literal_value, visibility_end,
};
use crate::token::{
    group_at, literal_at, locate, pair_at, peek_group, peek_literal, peek_pair, peek_punct,
    peek_word, punct_at, render, rendered, same_text, span_at, word_at, Delim, Span, Token,
};

verus! {

/// One entry of a mapping: a path pattern and its handler.
#[derive(Debug, PartialEq, Eq)]
pub struct Pair {
    /// The attributes on the entry, as source text.
    pub attrs: Vec<String>,
    /// The pattern: the string that the literal denotes.
    pub path: String,
    /// Where the literal stands.
    pub span: Span,
    /// The path of the handler, as source text.
    pub proc: String,
}

/// One mapping.
#[derive(Debug, PartialEq, Eq)]
pub struct Match {
    /// The attributes on the mapping, as source text.
    pub attrs: Vec<String>,
    pub visibility: String,
    pub name: String,
    pub pairs: Vec<Pair>,
}

/// The mappings of one block, in source order.
#[derive(Debug, PartialEq, Eq)]
pub struct Block(pub Vec<Match>);

/// The value of a [`Pair`].
pub ghost struct PairView {
    pub attrs: Seq<Seq<char>>,
    pub path: Seq<char>,
    pub span: Span,
    pub proc: Seq<char>,
}

/// The value of a [`Match`].
pub ghost struct MatchView {
    pub attrs: Seq<Seq<char>>,
    pub visibility: Seq<char>,
    pub name: Seq<char>,
    pub pairs: Seq<PairView>,
}

impl View for Pair {
    type V = PairView;

    open spec fn view(&self) -> PairView {
        PairView { attrs: texts(self.attrs@), path: self.path@, span: self.span, proc: self.proc@ }
    }
}

/// The values of a sequence of entries.
pub open spec fn pairs_view(v: Seq<Pair>) -> Seq<PairView> {
    Seq::new(v.len(), |i: int| v[i]@)
}

impl View for Match {
    type V = MatchView;

    open spec fn view(&self) -> MatchView {
        MatchView {
            attrs: texts(self.attrs@),
            visibility: self.visibility@,
            name: self.name@,
            pairs: pairs_view(self.pairs@),
        }
    }
}

/// The values of a sequence of mappings.
pub open spec fn matches_view(v: Seq<Match>) -> Seq<MatchView> {
    Seq::new(v.len(), |i: int| v[i]@)
}

impl View for Block {
    type V = Seq<MatchView>;

    open spec fn view(&self) -> Seq<MatchView> {
        matches_view(self.0@)
    }
}

/// The pattern that the literal at `pos` denotes, if a string literal
/// stands there.
pub open spec fn pattern_at(tokens: Seq<Token>, pos: int) -> Option<Seq<char>> {
    match literal_at(tokens, pos) {
        Some(text) => string_literal(text),
        None => None,
    }
}

/// The entry that starts at `pos` and the position behind it.
#[verifier::opaque]
pub open spec fn pair_parse(tokens: Seq<Token>, pos: int, scope: Span) -> Result<
    (PairView, int),
    Seq<Entry>,
> {
    match attributes_at(tokens, pos) {
        None => Err(lone(span_at(tokens, pos, scope), Problem::ExpectedAttribute)),
        Some((paths, at)) => match pattern_at(tokens, at) {
            None => Err(lone(span_at(tokens, at, scope), Problem::ExpectedString)),
            Some(path) => if !pair_at(tokens, at + 1, '=', '>') {
                Err(lone(span_at(tokens, at + 1, scope), Problem::ExpectedFatArrow))
            } else {
                match path_end(tokens, at + 3) {
                    None => Err(lone(span_at(tokens, at + 3, scope), Problem::ExpectedPath)),
                    Some(end) => Ok(
                        (
                            PairView {
                                attrs: attribute_texts(tokens, pos, paths.len() as int),
                                path,
                                span: tokens[at].spec_span(),
                                proc: rendered(tokens.subrange(at + 3, end)),
                            },
                            end,
                        ),
                    ),
                }
            },
        },
    }
}

/// An entry that parses ends inside the tokens, behind where it began.
pub proof fn lemma_pair_end(tokens: Seq<Token>, pos: int, scope: Span)
    ensures
        match pair_parse(tokens, pos, scope) {
            Ok((_, end)) => 0 <= pos < end <= tokens.len(),
            Err(e) => e.len() == 1,
        },
{
    reveal(pair_parse);
}

/// The entries that fill `tokens` from `pos` to the end.
pub open spec fn pairs_from(tokens: Seq<Token>, pos: int, scope: Span) -> Result<
    Seq<PairView>,
    Seq<Entry>,
>
    decreases tokens.len() - pos,
{
    if pos < 0 || pos >= tokens.len() {
        Ok(Seq::empty())
    } else {
        match pair_parse(tokens, pos, scope) {
            Err(e) => Err(e),
            Ok((first, end)) => {
                proof {
                    lemma_pair_end(tokens, pos, scope);
                }
                if end >= tokens.len() {
                    Ok(seq![first])
                } else if punct_at(tokens, end, ',') {
                    after_item(first, pairs_from(tokens, end + 1, scope))
                } else {
                    Err(lone(tokens[end].spec_span(), Problem::ExpectedComma))
                }
            },
        }
    }
}

/// The mapping that starts at `pos` and the position behind it.
#[verifier::opaque]
pub open spec fn match_parse(tokens: Seq<Token>, pos: int, scope: Span) -> Result<
    (MatchView, int),
    Seq<Entry>,
> {
    match attributes_at(tokens, pos) {
        None => Err(lone(span_at(tokens, pos, scope), Problem::ExpectedAttribute)),
        Some((paths, visibility_at)) => match visibility_end(tokens, visibility_at) {
            None => Err(lone(span_at(tokens, visibility_at, scope), Problem::ExpectedVisibility)),
            Some(at) => if word_at(tokens, at) != Some("match"@) {
                Err(lone(span_at(tokens, at, scope), Problem::ExpectedMatch))
            } else {
                match call_name(tokens, at + 1) {
                    None => Err(lone(span_at(tokens, at + 1, scope), Problem::ExpectedIdent)),
                    Some(name) => match group_at(tokens, at + 2, Delim::Brace) {
                        None => Err(
                            lone(span_at(tokens, at + 2, scope), Problem::ExpectedBraces),
                        ),
                        Some(inner) => match pairs_from(inner, 0, tokens[at + 2].spec_span()) {
                            Err(e) => Err(e),
                            Ok(pairs) => Ok(
                                (
                                    MatchView {
                                        attrs: attribute_texts(tokens, pos, paths.len() as int),
                                        visibility: rendered(tokens.subrange(visibility_at, at)),
                                        name,
                                        pairs,
                                    },
                                    at + 3,
                                ),
                            ),
                        },
                    },
                }
            },
        },
    }
}

/// A mapping that parses ends inside the tokens, behind where it began.
pub proof fn lemma_match_end(tokens: Seq<Token>, pos: int, scope: Span)
    ensures
        match match_parse(tokens, pos, scope) {
            Ok((_, end)) => 0 <= pos < end <= tokens.len(),
            Err(_) => true,
        },
{
    reveal(match_parse);
}

/// The mappings that fill `tokens` from `pos` to the end.
pub open spec fn block_from(tokens: Seq<Token>, pos: int, scope: Span) -> Result<
    Seq<MatchView>,
    Seq<Entry>,
>
    decreases tokens.len() - pos,
{
    if pos < 0 || pos >= tokens.len() {
        Ok(Seq::empty())
    } else {
        match match_parse(tokens, pos, scope) {
            Err(e) => Err(e),
            Ok((first, end)) => {
                proof {
                    lemma_match_end(tokens, pos, scope);
                }
                after_item(first, block_from(tokens, end, scope))
            },
        }
    }
}

/// The first fault among the entries `pairs[from..]`: the first pattern,
/// in source order, that is no regular expression.
pub open spec fn first_fault_among(pairs: Seq<PairView>, from: int) -> Option<(Span, Seq<char>)>
    decreases pairs.len() - from,
{
    if from < 0 || from >= pairs.len() {
        None
    } else {
        match verdict(pairs[from].span, regex_fault(pairs[from].path)) {
            Some(fault) => Some(fault),
            None => first_fault_among(pairs, from + 1),
        }
    }
}

/// The first fault among the mappings `found[from..]`.
pub open spec fn first_fault(found: Seq<MatchView>, from: int) -> Option<(Span, Seq<char>)>
    decreases found.len() - from,
{
    if from < 0 || from >= found.len() {
        None
    } else {
        match first_fault_among(found[from].pairs, 0) {
            Some(fault) => Some(fault),
            None => first_fault(found, from + 1),
        }
    }
}

/// No fault is found among entries exactly when every pattern compiles.
pub proof fn lemma_no_fault_among(pairs: Seq<PairView>, from: int)
    requires
        0 <= from,
    ensures
        first_fault_among(pairs, from) is None <==> forall|i: int|
            from <= i < pairs.len() ==> regex_fault(#[trigger] pairs[i].path) is None,
    decreases pairs.len() - from,
{
    if from < pairs.len() {
        lemma_no_fault_among(pairs, from + 1);
        if first_fault_among(pairs, from) is None {
            assert forall|i: int| from <= i < pairs.len() implies regex_fault(
                #[trigger] pairs[i].path,
            ) is None by {
                if i > from {
                }
            }
        }
    }
}

/// A block passes the check exactly when every pattern of every mapping
/// compiles.
pub proof fn lemma_no_fault(found: Seq<MatchView>, from: int)
    requires
        0 <= from,
    ensures
        first_fault(found, from) is None <==> forall|m: int, i: int|
            from <= m < found.len() && 0 <= i < found[m].pairs.len() ==> regex_fault(
                #[trigger] found[m].pairs[i].path,
            ) is None,
    decreases found.len() - from,
{
    if from < found.len() {
        lemma_no_fault(found, from + 1);
        lemma_no_fault_among(found[from].pairs, 0);
        if first_fault(found, from) is None {
            assert forall|m: int, i: int|
                from <= m < found.len() && 0 <= i < found[m].pairs.len() implies regex_fault(
                #[trigger] found[m].pairs[i].path,
            ) is None by {
                if m > from {
                }
            }
        } else {
            if first_fault_among(found[from].pairs, 0) is Some {
                let i = choose|i: int|
                    0 <= i < found[from].pairs.len() && !(regex_fault(
                        #[trigger] found[from].pairs[i].path,
                    ) is None);
                assert(regex_fault(found[from].pairs[i].path) is Some);
            }
        }
    }
}

impl Pair {
    /// Parses the entry that starts at `pos`. Returns the entry and the
    /// position behind it.
    pub fn parse(tokens: &Vec<Token>, pos: usize, scope: Span) -> (r: Result<
        (Pair, usize),
        Diagnostic,
    >)
        ensures
            match r {
                Ok((pair, end)) => pair_parse(tokens@, pos as int, scope) == Ok::<
                    (PairView, int),
                    Seq<Entry>,
                >((pair@, end as int)) && pos < end <= tokens.len(),
                Err(d) => pair_parse(tokens@, pos as int, scope) == Err::<
                    (PairView, int),
                    Seq<Entry>,
                >(d@),
            },
    {
        proof {
            reveal(pair_parse);
        }
        if pos > tokens.len() {
            return Err(Diagnostic::single(scope, Problem::ExpectedAttribute));
        }
        let (paths, at) = match find_attributes(tokens, pos) {
            Some(found) => found,
            None => {
                return Err(
                    Diagnostic::single(locate(tokens, pos, scope), Problem::ExpectedAttribute),
                );
            },
        };
        proof {
            assert(paths.deep_view().len() == paths.len());
        }
        let literal = match peek_literal(tokens, at) {
            Some(text) => string_literal_value(text),
            None => None,
        };
        let path = match literal {
            Some(path) => path,
            None => {
                return Err(Diagnostic::single(locate(tokens, at, scope), Problem::ExpectedString));
            },
        };
        if !peek_pair(tokens, at + 1, '=', '>') {
            return Err(
                Diagnostic::single(locate(tokens, at + 1, scope), Problem::ExpectedFatArrow),
            );
        }
        let end = match find_path_end(tokens, at + 3) {
            Some(end) => end,
            None => {
                return Err(
                    Diagnostic::single(locate(tokens, at + 3, scope), Problem::ExpectedPath),
                );
            },
        };
        let attrs = render_attributes(tokens, pos, paths.len());
        let proc = render(tokens, at + 3, end);
        Ok((Pair { attrs, path, span: tokens[at].span(), proc }, end))
    }

    /// Parses the entries of a mapping: all of `tokens`, the content of
    /// the mapping's braces.
    pub fn parse_all(tokens: &Vec<Token>, scope: Span) -> (r: Result<Vec<Pair>, Diagnostic>)
        ensures
            match r {
                Ok(pairs) => pairs_from(tokens@, 0, scope) == Ok::<Seq<PairView>, Seq<Entry>>(
                    pairs_view(pairs@),
                ),
                Err(d) => pairs_from(tokens@, 0, scope) == Err::<Seq<PairView>, Seq<Entry>>(d@),
            },
    {
        let mut list: Vec<Pair> = Vec::new();
        let mut at: usize = 0;
        proof {
            match pairs_from(tokens@, 0, scope) {
                Ok(more) => {
                    assert(pairs_view(list@) + more =~= more);
                },
                Err(_) => {},
            }
        }
        while at < tokens.len()
            invariant
                pairs_from(tokens@, 0, scope) == continued(
                    pairs_view(list@),
                    pairs_from(tokens@, at as int, scope),
                ),
            decreases tokens.len() - at,
        {
            let ghost before = pairs_view(list@);
            match Pair::parse(tokens, at, scope) {
                Err(d) => {
                    return Err(d);
                },
                Ok((pair, end)) => {
                    let ghost first = pair@;
                    list.push(pair);
                    proof {
                        assert(pairs_view(list@) =~= before + seq![first]);
                    }
                    if end >= tokens.len() {
                        return Ok(list);
                    }
                    if !peek_punct(tokens, end, ',') {
                        return Err(Diagnostic::single(tokens[end].span(), Problem::ExpectedComma));
                    }
                    proof {
                        match pairs_from(tokens@, end + 1, scope) {
                            Ok(more) => {
                                assert(before + (seq![first] + more) =~= (before + seq![first])
                                    + more);
                            },
                            Err(_) => {},
                        }
                    }
                    at = end + 1;
                },
            }
        }
        proof {
            assert(pairs_view(list@) + Seq::<PairView>::empty() =~= pairs_view(list@));
        }
        Ok(list)
    }
}

impl Match {
    /// Parses the mapping that starts at `pos`. Returns the mapping and the
    /// position behind it.
    pub fn parse(tokens: &Vec<Token>, pos: usize, scope: Span) -> (r: Result<
        (Match, usize),
        Diagnostic,
    >)
        ensures
            match r {
                Ok((found, end)) => match_parse(tokens@, pos as int, scope) == Ok::<
                    (MatchView, int),
                    Seq<Entry>,
                >((found@, end as int)) && pos < end <= tokens.len(),
                Err(d) => match_parse(tokens@, pos as int, scope) == Err::<
                    (MatchView, int),
                    Seq<Entry>,
                >(d@),
            },
    {
        proof {
            reveal(match_parse);
        }
        if pos > tokens.len() {
            return Err(Diagnostic::single(scope, Problem::ExpectedAttribute));
        }
        let (paths, visibility_at) = match find_attributes(tokens, pos) {
            Some(found) => found,
            None => {
                return Err(
                    Diagnostic::single(locate(tokens, pos, scope), Problem::ExpectedAttribute),
                );
            },
        };
        proof {
            assert(paths.deep_view().len() == paths.len());
        }
        let at = match find_visibility_end(tokens, visibility_at) {
            Some(end) => end,
            None => {
                return Err(
                    Diagnostic::single(
                        locate(tokens, visibility_at, scope),
                        Problem::ExpectedVisibility,
                    ),
                );
            },
        };
        let keyword = match peek_word(tokens, at) {
            Some(word) => same_text(word, "match"),
            None => false,
        };
        if !keyword {
            return Err(Diagnostic::single(locate(tokens, at, scope), Problem::ExpectedMatch));
        }
        let name = match peek_word(tokens, at + 1) {
            Some(word) => {
                if !word.as_str().is_empty() && is_plain_ident(word) {
                    word.clone()
                } else {
                    return Err(
                        Diagnostic::single(locate(tokens, at + 1, scope), Problem::ExpectedIdent),
                    );
                }
            },
            None => {
                return Err(
                    Diagnostic::single(locate(tokens, at + 1, scope), Problem::ExpectedIdent),
                );
            },
        };
        let inner = match peek_group(tokens, at + 2, Delim::Brace) {
            Some(inner) => inner,
            None => {
                return Err(
                    Diagnostic::single(locate(tokens, at + 2, scope), Problem::ExpectedBraces),
                );
            },
        };
        let pairs = match Pair::parse_all(inner, tokens[at + 2].span()) {
            Ok(pairs) => pairs,
            Err(d) => {
                return Err(d);
            },
        };
        let attrs = render_attributes(tokens, pos, paths.len());
        let visibility = render(tokens, visibility_at, at);
        Ok((Match { attrs, visibility, name, pairs }, at + 3))
    }

    /// Compiles the patterns of the mapping in source order and reports
    /// the first that is no regular expression.
    pub fn check(&self) -> (r: Result<(), PatternFault>)
        ensures
            match r {
                Ok(_) => first_fault_among(self@.pairs, 0) is None,
                Err(fault) => first_fault_among(self@.pairs, 0) == Some(fault@),
            },
    {
        let mut i: usize = 0;
        while i < self.pairs.len()
            invariant
                i <= self.pairs.len(),
                first_fault_among(self@.pairs, 0) == first_fault_among(self@.pairs, i as int),
            decreases self.pairs.len() - i,
        {
            let pair = &self.pairs[i];
            proof {
                assert(self@.pairs[i as int] == pair@);
            }
            match PatternFault::judge(pair.span, pattern_fault(&pair.path)) {
                Err(fault) => {
                    return Err(fault);
                },
                Ok(_) => {},
            }
            i = i + 1;
        }
        Ok(())
    }
}

impl Block {
    /// Parses a block of mappings: all of `tokens`.
    pub fn parse(tokens: &Vec<Token>, scope: Span) -> (r: Result<Block, Diagnostic>)
        ensures
            match r {
                Ok(block) => block_from(tokens@, 0, scope) == Ok::<Seq<MatchView>, Seq<Entry>>(
                    block@,
                ),
                Err(d) => block_from(tokens@, 0, scope) == Err::<Seq<MatchView>, Seq<Entry>>(d@),
            },
    {
        let mut list: Vec<Match> = Vec::new();
        let mut at: usize = 0;
        proof {
            match block_from(tokens@, 0, scope) {
                Ok(more) => {
                    assert(matches_view(list@) + more =~= more);
                },
                Err(_) => {},
            }
        }
        while at < tokens.len()
            invariant
                block_from(tokens@, 0, scope) == continued(
                    matches_view(list@),
                    block_from(tokens@, at as int, scope),
                ),
            decreases tokens.len() - at,
        {
            let ghost before = matches_view(list@);
            match Match::parse(tokens, at, scope) {
                Err(d) => {
                    return Err(d);
                },
                Ok((found, end)) => {
                    let ghost first = found@;
                    list.push(found);
                    proof {
                        assert(matches_view(list@) =~= before + seq![first]);
                        match block_from(tokens@, end as int, scope) {
                            Ok(more) => {
                                assert(before + (seq![first] + more) =~= (before + seq![first])
                                    + more);
                            },
                            Err(_) => {},
                        }
                    }
                    at = end;
                },
            }
        }
        proof {
            assert(matches_view(list@) + Seq::<MatchView>::empty() =~= matches_view(list@));
        }
        Ok(Block(list))
    }

    /// Compiles every pattern of the block, mapping by mapping in source
    /// order, and reports the first that is no regular expression.
    pub fn check(&self) -> (r: Result<(), PatternFault>)
        ensures
            match r {
                Ok(_) => first_fault(self@, 0) is None,
                Err(fault) => first_fault(self@, 0) == Some(fault@),
            },
    {
        let mut m: usize = 0;
        while m < self.0.len()
            invariant
                m <= self.0.len(),
                first_fault(self@, 0) == first_fault(self@, m as int),
            decreases self.0.len() - m,
        {
            proof {
                assert(self@[m as int] == self.0[m as int]@);
            }
            match self.0[m].check() {
                Err(fault) => {
                    return Err(fault);
                },
                Ok(_) => {},
            }
            m = m + 1;
        }
        Ok(())
    }

    /// The code that the block expands to. Nothing is generated for a
    /// route mapping: the expansion is empty.
    pub fn expand(&self) -> (r: Vec<Token>)
        ensures
            r@.len() == 0,
    {
        Vec::new()
    }
}

} // verus!
