//! Token trees: the input of every grammar in this crate.
//!
//! A token sequence has the shape that the Rust lexer gives to source text:
//! identifiers, literals, single punctuation characters (each knowing whether
//! the next punctuation character follows it directly) and delimited groups.
//! Every token carries the location that diagnostics point at.

use vstd::prelude::*;

verus! {

/// A location in the source text, as the producer of the tokens numbers it.
#[derive(Clone, Copy, Debug, PartialEq, Eq, Structural)]
pub struct Span {
    pub start: usize,
    pub end: usize,
}

/// The three kinds of brackets that enclose a group.
#[derive(Clone, Copy, Debug, PartialEq, Eq, Structural)]
pub enum Delim {
    Paren,
    Brace,
    Bracket,
}

impl Delim {
    /// The character that opens a group of this kind.
    pub open spec fn spec_open(self) -> char {
        match self {
            Delim::Paren => '(',
            Delim::Brace => '{',
            Delim::Bracket => '[',
        }
    }

    /// The character that closes a group of this kind.
    pub open spec fn spec_close(self) -> char {
        match self {
            Delim::Paren => ')',
            Delim::Brace => '}',
            Delim::Bracket => ']',
        }
    }

    /// The character that opens a group of this kind.
    #[verifier::when_used_as_spec(spec_open)]
    pub fn open(self) -> (r: char)
        ensures
            r == self.spec_open(),
    {
        match self {
            Delim::Paren => '(',
            Delim::Brace => '{',
            Delim::Bracket => '[',
        }
    }

    /// The character that closes a group of this kind.
    #[verifier::when_used_as_spec(spec_close)]
    pub fn close(self) -> (r: char)
        ensures
            r == self.spec_close(),
    {
        match self {
            Delim::Paren => ')',
            Delim::Brace => '}',
            Delim::Bracket => ']',
        }
    }
}

/// One token tree.
#[derive(Debug, PartialEq, Eq)]
pub enum Token {
    /// A word: an identifier or a keyword.
    Ident { text: String, span: Span },
    /// One punctuation character; `joint` says that the next token is a
    /// punctuation character written directly after this one, as in `&&`.
    Punct { ch: char, joint: bool, span: Span },
    /// A literal, as written in the source.
    Literal { text: String, span: Span },
    /// A bracketed group and the tokens between the brackets.
    Group { delim: Delim, inner: Vec<Token>, span: Span },
}

impl Token {
    /// Where the token stands.
    pub open spec fn spec_span(&self) -> Span {
        match self {
            Token::Ident { span, .. } => *span,
            Token::Punct { span, .. } => *span,
            Token::Literal { span, .. } => *span,
            Token::Group { span, .. } => *span,
        }
    }

    /// Where the token stands.
    #[verifier::when_used_as_spec(spec_span)]
    pub fn span(&self) -> (r: Span)
        ensures
            r == self.spec_span(),
    {
        match self {
            Token::Ident { span, .. } => *span,
            Token::Punct { span, .. } => *span,
            Token::Literal { span, .. } => *span,
            Token::Group { span, .. } => *span,
        }
    }

    /// The word, if the token is one.
    pub open spec fn word(&self) -> Option<Seq<char>> {
        match self {
            Token::Ident { text, .. } => Some(text@),
            _ => None,
        }
    }

    /// The literal's text, if the token is a literal.
    pub open spec fn literal(&self) -> Option<Seq<char>> {
        match self {
            Token::Literal { text, .. } => Some(text@),
            _ => None,
        }
    }

    /// Whether the token is the punctuation character `ch`.
    pub open spec fn is_punct(&self, ch: char) -> bool {
        match self {
            Token::Punct { ch: c, .. } => *c == ch,
            _ => false,
        }
    }

    /// Whether the token is the punctuation character `ch` with another
    /// punctuation character directly behind it.
    pub open spec fn is_joint(&self, ch: char) -> bool {
        match self {
            Token::Punct { ch: c, joint, .. } => *c == ch && *joint,
            _ => false,
        }
    }

    /// The tokens inside, if the token is a group in `delim` brackets.
    pub open spec fn group(&self, delim: Delim) -> Option<Seq<Token>> {
        match self {
            Token::Group { delim: d, inner, .. } => if *d == delim {
                Some(inner@)
            } else {
                None
            },
            _ => None,
        }
    }
}

/// The location that a diagnostic at position `pos` of `tokens` points at:
/// the token there, or `scope` (the enclosing group) where the tokens have
/// run out.
pub open spec fn span_at(tokens: Seq<Token>, pos: int, scope: Span) -> Span {
    if 0 <= pos < tokens.len() {
        tokens[pos].spec_span()
    } else {
        scope
    }
}

/// The word at `pos`, if a word stands there.
pub open spec fn word_at(tokens: Seq<Token>, pos: int) -> Option<Seq<char>> {
    if 0 <= pos < tokens.len() {
        tokens[pos].word()
    } else {
        None
    }
}

/// The text of the literal at `pos`, if a literal stands there.
pub open spec fn literal_at(tokens: Seq<Token>, pos: int) -> Option<Seq<char>> {
    if 0 <= pos < tokens.len() {
        tokens[pos].literal()
    } else {
        None
    }
}

/// Whether the punctuation character `ch` stands at `pos`.
pub open spec fn punct_at(tokens: Seq<Token>, pos: int, ch: char) -> bool {
    0 <= pos < tokens.len() && tokens[pos].is_punct(ch)
}

/// Whether the two-character operator `a b` stands at `pos`: `a` with `b`
/// directly behind it.
pub open spec fn pair_at(tokens: Seq<Token>, pos: int, a: char, b: char) -> bool {
    0 <= pos && pos + 1 < tokens.len() && tokens[pos].is_joint(a) && tokens[pos + 1].is_punct(b)
}

/// The tokens of the group in `delim` brackets at `pos`, if one stands there.
pub open spec fn group_at(tokens: Seq<Token>, pos: int, delim: Delim) -> Option<Seq<Token>> {
    if 0 <= pos < tokens.len() {
        tokens[pos].group(delim)
    } else {
        None
    }
}

/// Where a diagnostic at `pos` points: at the token there, or at `scope`
/// behind the last token.
pub fn locate(tokens: &Vec<Token>, pos: usize, scope: Span) -> (r: Span)
    ensures
        r == span_at(tokens@, pos as int, scope),
{
    if pos < tokens.len() {
        tokens[pos].span()
    } else {
        scope
    }
}

/// Looks at `pos` for a word, without moving.
pub fn peek_word(tokens: &Vec<Token>, pos: usize) -> (r: Option<&String>)
    ensures
        match r {
            Some(text) => word_at(tokens@, pos as int) == Some(text@),
            None => word_at(tokens@, pos as int) is None,
        },
{
    if pos < tokens.len() {
        match &tokens[pos] {
            Token::Ident { text, .. } => Some(text),
            _ => None,
        }
    } else {
        None
    }
}

/// Looks at `pos` for a literal, without moving.
pub fn peek_literal(tokens: &Vec<Token>, pos: usize) -> (r: Option<&String>)
    ensures
        match r {
            Some(text) => literal_at(tokens@, pos as int) == Some(text@),
            None => literal_at(tokens@, pos as int) is None,
        },
{
    if pos < tokens.len() {
        match &tokens[pos] {
            Token::Literal { text, .. } => Some(text),
            _ => None,
        }
    } else {
        None
    }
}

/// Looks at `pos` for the punctuation character `ch`, without moving.
pub fn peek_punct(tokens: &Vec<Token>, pos: usize, ch: char) -> (r: bool)
    ensures
        r == punct_at(tokens@, pos as int, ch),
{
    if pos < tokens.len() {
        match &tokens[pos] {
            Token::Punct { ch: c, .. } => *c == ch,
            _ => false,
        }
    } else {
        false
    }
}

/// Looks at `pos` for the two-character operator `a b`, without moving.
pub fn peek_pair(tokens: &Vec<Token>, pos: usize, a: char, b: char) -> (r: bool)
    ensures
        r == pair_at(tokens@, pos as int, a, b),
{
    if pos < tokens.len() && tokens.len() - pos > 1 {
        let first = match &tokens[pos] {
            Token::Punct { ch, joint, .. } => *ch == a && *joint,
            _ => false,
        };
        first && peek_punct(tokens, pos + 1, b)
    } else {
        false
    }
}

/// Looks at `pos` for a group in `delim` brackets, without moving, and
/// hands out the tokens inside.
pub fn peek_group(tokens: &Vec<Token>, pos: usize, delim: Delim) -> (r: Option<&Vec<Token>>)
    ensures
        match r {
            Some(inner) => {
                &&& group_at(tokens@, pos as int, delim) == Some(inner@)
                &&& pos < tokens.len()
                &&& decreases_to!(tokens@ => inner@)
            },
            None => group_at(tokens@, pos as int, delim) is None,
        },
{
    if pos < tokens.len() {
        match &tokens[pos] {
            Token::Group { delim: d, inner, .. } => {
                if *d == delim {
                    proof {
                        assert(decreases_to!(tokens@ => tokens@[pos as int]));
                        assert(decreases_to!(tokens@[pos as int] => *inner));
                        assert(decreases_to!(*inner => inner@));
                    }
                    Some(inner)
                } else {
                    None
                }
            },
            _ => None,
        }
    } else {
        None
    }
}

/// The source text of one token, with a blank behind it unless the token is
/// a punctuation character that the next one follows directly.
pub open spec fn rendered_token(t: Token) -> Seq<char>
    decreases t,
{
    match t {
        Token::Ident { text, .. } => text@.push(' '),
        Token::Literal { text, .. } => text@.push(' '),
        Token::Punct { ch, joint, .. } => if joint {
            seq![ch]
        } else {
            seq![ch, ' ']
        },
        Token::Group { delim, inner, .. } => seq![delim.spec_open()] + rendered(inner@)
            + seq![delim.spec_close(), ' '],
    }
}

/// The source text of a token sequence: the texts of its tokens in order.
pub open spec fn rendered(tokens: Seq<Token>) -> Seq<char>
    decreases tokens,
{
    if tokens.len() == 0 {
        Seq::empty()
    } else {
        rendered(tokens.drop_last()) + rendered_token(tokens.last())
    }
}

/// `String::push` appends one character to the string.
pub assume_specification[ String::push ](text: &mut String, ch: char)
    ensures
        final(text)@ == old(text)@.push(ch),
;

/// Appends the source text of `tokens[from..to]` to `out`.
pub fn render_into(out: &mut String, tokens: &Vec<Token>, from: usize, to: usize)
    requires
        from <= to <= tokens.len(),
    ensures
        final(out)@ == old(out)@ + rendered(tokens@.subrange(from as int, to as int)),
    decreases tokens@,
{
    let ghost start = out@;
    let mut i: usize = from;
    while i < to
        invariant
            from <= i <= to <= tokens.len(),
            out@ == start + rendered(tokens@.subrange(from as int, i as int)),
        decreases to - i,
    {
        let ghost before = out@;
        match &tokens[i] {
            Token::Ident { text, .. } => {
                out.append(text.as_str());
                out.push(' ');
            },
            Token::Literal { text, .. } => {
                out.append(text.as_str());
                out.push(' ');
            },
            Token::Punct { ch, joint, .. } => {
                out.push(*ch);
                if !*joint {
                    out.push(' ');
                }
            },
            Token::Group { delim, inner, .. } => {
                proof {
                    assert(decreases_to!(tokens@ => tokens@[i as int]));
                    assert(decreases_to!(tokens@[i as int] => *inner));
                    assert(decreases_to!(*inner => inner@));
                    assert(inner@.subrange(0, inner@.len() as int) =~= inner@);
                }
                out.push(delim.open());
                render_into(out, inner, 0, inner.len());
                out.push(delim.close());
                out.push(' ');
            },
        }
        proof {
            let next = tokens@.subrange(from as int, i + 1);
            assert(next.drop_last() =~= tokens@.subrange(from as int, i as int));
            assert(next.last() == tokens@[i as int]);
            assert(out@ =~= before + rendered_token(tokens@[i as int]));
        }
        i = i + 1;
    }
}

/// The source text of `tokens[from..to]`.
pub fn render(tokens: &Vec<Token>, from: usize, to: usize) -> (r: String)
    requires
        from <= to <= tokens.len(),
    ensures
        r@ == rendered(tokens@.subrange(from as int, to as int)),
{
    let mut out = String::new();
    render_into(&mut out, tokens, from, to);
    out
}

/// Whether `text` is exactly `word`.
pub fn same_text(text: &String, word: &str) -> (r: bool)
    ensures
        r == (text@ == word@),
{
    let other = String::from_str(word);
    text.eq(&other)
}

} // verus!
