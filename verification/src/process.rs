//! The grammar of process declarations.
//!
//! A declaration is a visibility qualifier, a name, the input type in
//! parentheses, any number of arguments each led by a comma, `->`, the
//! result type, and the body in braces:
//!
//! ```text
//! pub fetch(Request), retries: u8, timeout: Duration -> Response { ... }
//! ```
//!
//! Every argument carries a name; one without is fatal. A batch is a run of
//! declarations. A declaration whose body fails does not end the batch: the
//! scan goes on behind the body and all diagnostics are merged. Behind a
//! malformed signature the next declaration cannot be found, so the scan
//! ends there. Declarations come out in source order.

use vstd::prelude::*;
use crate::ast::{body_named, FlowBody, StmtView};
use crate::call::call_name;
use crate::diagnostic::{
    after_error, after_item, fatal, lemma_combine_well_formed, lone, pending, well_formed,
    Diagnostic, Entry, Halt, Problem,
};
use crate::flow::{flow_at, lemma_flow_named, lemma_flow_well_formed, resume};
use crate::rust_syntax::{
    argument_at, find_argument, find_type_end, find_visibility_end, is_plain_ident, type_end,
    visibility_end,
};
use crate::token::{
    group_at, locate, pair_at, peek_group, peek_pair, peek_punct, peek_word, punct_at, render,
    rendered, same_text, span_at, word_at, Delim, Span, Token,
};

verus! {

/// A named argument of a process. The type and the attributes are kept
/// as source text.
#[derive(Debug, PartialEq, Eq)]
pub struct Argument {
    /// The attributes before the name; empty where there are none.
    pub attrs: String,
    pub name: String,
    pub ty: String,
}

/// One process declaration. Types and the visibility qualifier are kept
/// as source text.
#[derive(Debug, PartialEq, Eq)]
pub struct Process {
    pub visibility: String,
    pub name: String,
    pub input_ty: String,
    /// `None` where no argument was written.
    pub args: Option<Vec<Argument>>,
    pub result_ty: String,
    pub body: FlowBody,
}

/// The declarations of one batch, in source order.
#[derive(Debug, PartialEq, Eq)]
pub struct Processes(pub Vec<Process>);

/// The value of an [`Argument`].
pub ghost struct ArgumentView {
    pub attrs: Seq<char>,
    pub name: Seq<char>,
    pub ty: Seq<char>,
}

/// The value of a [`Process`].
pub ghost struct ProcessView {
    pub visibility: Seq<char>,
    pub name: Seq<char>,
    pub input_ty: Seq<char>,
    pub args: Option<Seq<ArgumentView>>,
    pub result_ty: Seq<char>,
    pub body: Seq<StmtView>,
}

impl View for Argument {
    type V = ArgumentView;

    open spec fn view(&self) -> ArgumentView {
        ArgumentView { attrs: self.attrs@, name: self.name@, ty: self.ty@ }
    }
}

/// The values of a sequence of arguments.
pub open spec fn arguments_view(v: Seq<Argument>) -> Seq<ArgumentView> {
    Seq::new(v.len(), |i: int| v[i]@)
}

impl View for Process {
    type V = ProcessView;

    open spec fn view(&self) -> ProcessView {
        ProcessView {
            visibility: self.visibility@,
            name: self.name@,
            input_ty: self.input_ty@,
            args: match self.args {
                Some(v) => Some(arguments_view(v@)),
                None => None,
            },
            result_ty: self.result_ty@,
            body: self.body@,
        }
    }
}

/// The values of a sequence of declarations.
pub open spec fn processes_view(v: Seq<Process>) -> Seq<ProcessView> {
    Seq::new(v.len(), |i: int| v[i]@)
}

impl View for Processes {
    type V = Seq<ProcessView>;

    open spec fn view(&self) -> Seq<ProcessView> {
        processes_view(self.0@)
    }
}

/// The head of a declaration: visibility, name and input type.
pub ghost struct HeadView {
    pub visibility: Seq<char>,
    pub name: Seq<char>,
    pub input_ty: Seq<char>,
    /// The position behind the parentheses.
    pub end: int,
}

/// The head of the declaration that starts at `pos`.
pub open spec fn head_at(tokens: Seq<Token>, pos: int, scope: Span) -> Result<HeadView, Seq<Entry>> {
    match visibility_end(tokens, pos) {
        None => Err(lone(span_at(tokens, pos, scope), Problem::ExpectedVisibility)),
        Some(name_at) => match call_name(tokens, name_at) {
            None => Err(lone(span_at(tokens, name_at, scope), Problem::ExpectedIdent)),
            Some(name) => match group_at(tokens, name_at + 1, Delim::Paren) {
                None => Err(lone(span_at(tokens, name_at + 1, scope), Problem::ExpectedParens)),
                Some(inner) => match type_end(inner, 0) {
                    None => Err(
                        lone(
                            span_at(inner, 0, tokens[name_at + 1].spec_span()),
                            Problem::ExpectedType,
                        ),
                    ),
                    Some(end) => if end < inner.len() {
                        Err(lone(inner[end].spec_span(), Problem::UnexpectedToken))
                    } else {
                        Ok(
                            HeadView {
                                visibility: rendered(tokens.subrange(pos, name_at)),
                                name,
                                input_ty: rendered(inner),
                                end: name_at + 2,
                            },
                        )
                    },
                },
            },
        },
    }
}

/// The first position in `from..to` at which a word stands, or `to` where
/// none does.
pub open spec fn first_word(tokens: Seq<Token>, from: int, to: int) -> int
    decreases to - from,
{
    if from >= to {
        to
    } else if word_at(tokens, from) is Some {
        from
    } else {
        first_word(tokens, from + 1, to)
    }
}

/// The parts of the argument in `tokens[from..to]` whose name is `name`:
/// the attributes before the name, the name, and the type behind the
/// colon. The name is the first word of the argument.
pub open spec fn argument_split(tokens: Seq<Token>, from: int, to: int, name: Seq<char>)
    -> Option<ArgumentView> {
    let at = first_word(tokens, from, to);
    if at + 2 < to && word_at(tokens, at) == Some(name) && punct_at(tokens, at + 1, ':') {
        Some(
            ArgumentView {
                attrs: rendered(tokens.subrange(from, at)),
                name,
                ty: rendered(tokens.subrange(at + 2, to)),
            },
        )
    } else {
        None
    }
}

/// The arguments that start at `pos`, each led by a comma, and the
/// position behind the last of them.
pub open spec fn argument_list(tokens: Seq<Token>, pos: int, scope: Span) -> Result<
    (Seq<ArgumentView>, int),
    Seq<Entry>,
>
    decreases tokens.len() - pos,
{
    if !punct_at(tokens, pos, ',') {
        Ok((Seq::empty(), pos))
    } else {
        match argument_at(tokens, pos + 1) {
            None => Err(lone(span_at(tokens, pos + 1, scope), Problem::ExpectedArgument)),
            Some((None, _)) => Err(lone(tokens[pos + 1].spec_span(), Problem::MissingArgumentName)),
            Some((Some(name), end)) => match argument_split(tokens, pos + 1, end, name) {
                None => Err(lone(tokens[pos + 1].spec_span(), Problem::ExpectedArgument)),
                Some(first) => match argument_list(tokens, end, scope) {
                    Ok((rest, last)) => Ok((seq![first] + rest, last)),
                    Err(e) => Err(e),
                },
            },
        }
    }
}

/// What an argument list is, given the arguments `before` the position
/// that `rest` was read from.
pub open spec fn after_arguments(
    before: Seq<ArgumentView>,
    rest: Result<(Seq<ArgumentView>, int), Seq<Entry>>,
) -> Result<(Seq<ArgumentView>, int), Seq<Entry>> {
    match rest {
        Ok((more, last)) => Ok((before + more, last)),
        Err(e) => Err(e),
    }
}

/// The tail of a declaration: arrow and result type.
pub ghost struct TailView {
    pub result_ty: Seq<char>,
    /// The position of the body.
    pub end: int,
}

/// The arrow and the result type that start at `pos`.
pub open spec fn tail_at(tokens: Seq<Token>, pos: int, scope: Span) -> Result<TailView, Seq<Entry>> {
    if !pair_at(tokens, pos, '-', '>') {
        Err(lone(span_at(tokens, pos, scope), Problem::ExpectedArrow))
    } else {
        match type_end(tokens, pos + 2) {
            None => Err(lone(span_at(tokens, pos + 2, scope), Problem::ExpectedType)),
            Some(end) => Ok(
                TailView { result_ty: rendered(tokens.subrange(pos + 2, end)), end },
            ),
        }
    }
}

/// The signature of a declaration: all of it but the body's statements.
pub ghost struct SignatureView {
    pub visibility: Seq<char>,
    pub name: Seq<char>,
    pub input_ty: Seq<char>,
    pub args: Option<Seq<ArgumentView>>,
    pub result_ty: Seq<char>,
    /// The position of the braces that hold the body.
    pub body_at: int,
}

/// The signature of the declaration that starts at `pos`.
#[verifier::opaque]
pub open spec fn signature_at(tokens: Seq<Token>, pos: int, scope: Span) -> Result<
    SignatureView,
    Seq<Entry>,
> {
    match head_at(tokens, pos, scope) {
        Err(e) => Err(e),
        Ok(head) => match argument_list(tokens, head.end, scope) {
            Err(e) => Err(e),
            Ok((list, arrow_at)) => match tail_at(tokens, arrow_at, scope) {
                Err(e) => Err(e),
                Ok(tail) => if group_at(tokens, tail.end, Delim::Brace) is None {
                    Err(lone(span_at(tokens, tail.end, scope), Problem::ExpectedBraces))
                } else {
                    Ok(
                        SignatureView {
                            visibility: head.visibility,
                            name: head.name,
                            input_ty: head.input_ty,
                            args: if punct_at(tokens, head.end, ',') {
                                Some(list)
                            } else {
                                None
                            },
                            result_ty: tail.result_ty,
                            body_at: tail.end,
                        },
                    )
                },
            },
        },
    }
}

/// The position behind the declaration that starts at `pos`: behind its
/// body.
pub open spec fn process_end(tokens: Seq<Token>, pos: int, scope: Span) -> int {
    match signature_at(tokens, pos, scope) {
        Ok(sig) => sig.body_at + 1,
        Err(_) => tokens.len() as int,
    }
}

/// The declaration that starts at `pos`, or the diagnostic and the
/// position at which the scan of a batch may go on: behind the body where
/// the body failed, the end of the tokens where the signature failed.
pub open spec fn process_at(tokens: Seq<Token>, pos: int, scope: Span) -> Result<
    ProcessView,
    (Seq<Entry>, int),
> {
    match signature_at(tokens, pos, scope) {
        Err(e) => Err((e, tokens.len() as int)),
        Ok(sig) => match flow_at(
            group_at(tokens, sig.body_at, Delim::Brace)->0,
            0,
            tokens[sig.body_at].spec_span(),
        ) {
            Err(e) => Err((e, sig.body_at + 1)),
            Ok(body) => Ok(
                ProcessView {
                    visibility: sig.visibility,
                    name: sig.name,
                    input_ty: sig.input_ty,
                    args: sig.args,
                    result_ty: sig.result_ty,
                    body,
                },
            ),
        },
    }
}

/// An argument list that parses ends inside the tokens, not before `pos`.
pub proof fn lemma_argument_list_end(tokens: Seq<Token>, pos: int, scope: Span)
    requires
        0 <= pos <= tokens.len(),
    ensures
        match argument_list(tokens, pos, scope) {
            Ok((_, end)) => pos <= end <= tokens.len(),
            Err(e) => e.len() == 1,
        },
    decreases tokens.len() - pos,
{
    if punct_at(tokens, pos, ',') {
        match argument_at(tokens, pos + 1) {
            Some((Some(_), end)) => {
                lemma_argument_list_end(tokens, end, scope);
            },
            _ => {},
        }
    }
}

/// A signature that parses has its body inside the tokens, behind `pos`.
pub proof fn lemma_signature_end(tokens: Seq<Token>, pos: int, scope: Span)
    ensures
        match signature_at(tokens, pos, scope) {
            Ok(sig) => 0 <= pos < sig.body_at < tokens.len(),
            Err(e) => e.len() == 1,
        },
{
    reveal(signature_at);
    match head_at(tokens, pos, scope) {
        Ok(head) => {
            lemma_argument_list_end(tokens, head.end, scope);
        },
        Err(_) => {},
    }
}

/// The batch of declarations that fills `tokens` from `pos` to the end:
/// the declarations in source order, or the merged diagnostics of all that
/// failed. A token that is no word cannot open a declaration: the scan
/// ends there.
pub open spec fn batch_at(tokens: Seq<Token>, pos: int, scope: Span) -> Result<
    Seq<ProcessView>,
    Seq<Entry>,
>
    decreases tokens.len() - pos,
{
    if pos < 0 || pos >= tokens.len() {
        Ok(Seq::empty())
    } else if word_at(tokens, pos) is None {
        Err(lone(tokens[pos].spec_span(), Problem::UnexpectedToken))
    } else {
        match process_at(tokens, pos, scope) {
            Ok(first) => {
                proof {
                    lemma_signature_end(tokens, pos, scope);
                }
                after_item(first, batch_at(tokens, process_end(tokens, pos, scope), scope))
            },
            Err((e, stop)) => if fatal(e) {
                Err(e)
            } else {
                after_error(e, batch_at(tokens, resume(tokens, pos, stop), scope))
            },
        }
    }
}

/// Whether the tokens from `pos` on are a valid batch: one declaration
/// that parses behind the other, to the end of the tokens.
pub open spec fn valid_batch(tokens: Seq<Token>, pos: int, scope: Span) -> bool
    decreases tokens.len() - pos,
{
    if pos < 0 || pos >= tokens.len() {
        true
    } else {
        &&& word_at(tokens, pos) is Some
        &&& process_at(tokens, pos, scope) is Ok
        &&& {
            proof {
                lemma_signature_end(tokens, pos, scope);
            }
            valid_batch(tokens, process_end(tokens, pos, scope), scope)
        }
    }
}

/// The positions at which the declarations of a valid batch start, in
/// source order.
pub open spec fn declaration_starts(tokens: Seq<Token>, pos: int, scope: Span) -> Seq<int>
    decreases tokens.len() - pos,
{
    if pos < 0 || pos >= tokens.len() || process_at(tokens, pos, scope) is Err {
        Seq::empty()
    } else {
        proof {
            lemma_signature_end(tokens, pos, scope);
        }
        seq![pos] + declaration_starts(tokens, process_end(tokens, pos, scope), scope)
    }
}

/// A valid batch parses, and gives exactly its declarations: as many as
/// the source text holds, each the declaration written at its place, in
/// source order. A batch that is not valid fails.
pub proof fn lemma_batch_gives_every_declaration(tokens: Seq<Token>, pos: int, scope: Span)
    ensures
        valid_batch(tokens, pos, scope) <==> batch_at(tokens, pos, scope) is Ok,
        valid_batch(tokens, pos, scope) ==> {
            let found = batch_at(tokens, pos, scope)->Ok_0;
            let starts = declaration_starts(tokens, pos, scope);
            &&& found.len() == starts.len()
            &&& forall|i: int|
                0 <= i < found.len() ==> process_at(tokens, #[trigger] starts[i], scope) == Ok::<
                    ProcessView,
                    (Seq<Entry>, int),
                >(found[i])
        },
    decreases tokens.len() - pos,
{
    if 0 <= pos < tokens.len() && word_at(tokens, pos) is Some {
        lemma_signature_end(tokens, pos, scope);
        match process_at(tokens, pos, scope) {
            Ok(first) => {
                let next = process_end(tokens, pos, scope);
                lemma_batch_gives_every_declaration(tokens, next, scope);
                if valid_batch(tokens, pos, scope) {
                    let rest = batch_at(tokens, next, scope)->Ok_0;
                    let found = batch_at(tokens, pos, scope)->Ok_0;
                    let later = declaration_starts(tokens, next, scope);
                    let starts = declaration_starts(tokens, pos, scope);
                    assert(found == seq![first] + rest);
                    assert(starts == seq![pos] + later);
                    assert forall|i: int| 0 <= i < found.len() implies process_at(
                        tokens,
                        #[trigger] starts[i],
                        scope,
                    ) == Ok::<ProcessView, (Seq<Entry>, int)>(found[i]) by {
                        if i > 0 {
                            assert(starts[i] == later[i - 1]);
                            assert(found[i] == rest[i - 1]);
                        }
                    }
                }
            },
            Err((e, stop)) => {
                lemma_process_well_formed(tokens, pos, scope);
            },
        }
    }
}

/// A declaration that parses has a name, and so has every call of its
/// body.
pub proof fn lemma_process_named(tokens: Seq<Token>, pos: int, scope: Span)
    ensures
        match process_at(tokens, pos, scope) {
            Ok(found) => found.name.len() > 0 && body_named(found.body),
            Err(_) => true,
        },
{
    reveal(signature_at);
    match signature_at(tokens, pos, scope) {
        Ok(sig) => {
            lemma_flow_named(
                group_at(tokens, sig.body_at, Delim::Brace)->0,
                0,
                tokens[sig.body_at].spec_span(),
            );
        },
        Err(_) => {},
    }
}

/// Every diagnostic of a declaration is well formed.
pub proof fn lemma_process_well_formed(tokens: Seq<Token>, pos: int, scope: Span)
    ensures
        match process_at(tokens, pos, scope) {
            Ok(_) => true,
            Err((e, _)) => well_formed(e),
        },
{
    lemma_signature_end(tokens, pos, scope);
    match signature_at(tokens, pos, scope) {
        Ok(sig) => {
            lemma_flow_well_formed(
                group_at(tokens, sig.body_at, Delim::Brace)->0,
                0,
                tokens[sig.body_at].spec_span(),
            );
        },
        Err(e) => {
            assert(well_formed(e));
        },
    }
}

/// Every diagnostic of a batch is well formed: it has an entry, and a
/// fatal entry, such as that for an argument without a name, stands alone.
pub proof fn lemma_batch_well_formed(tokens: Seq<Token>, pos: int, scope: Span)
    ensures
        match batch_at(tokens, pos, scope) {
            Ok(_) => true,
            Err(e) => well_formed(e),
        },
    decreases tokens.len() - pos,
{
    if 0 <= pos < tokens.len() && word_at(tokens, pos) is Some {
        lemma_signature_end(tokens, pos, scope);
        lemma_process_well_formed(tokens, pos, scope);
        match process_at(tokens, pos, scope) {
            Ok(_) => {
                lemma_batch_well_formed(tokens, process_end(tokens, pos, scope), scope);
            },
            Err((e, stop)) => {
                let next = resume(tokens, pos, stop);
                lemma_batch_well_formed(tokens, next, scope);
                if !fatal(e) {
                    match batch_at(tokens, next, scope) {
                        Ok(_) => {},
                        Err(later) => {
                            if !fatal(later) {
                                lemma_combine_well_formed(e, later);
                            }
                        },
                    }
                }
            },
        }
    }
}

/// An argument without a name fails its declaration fatally, with one
/// entry that points at the argument.
pub proof fn lemma_unnamed_argument_is_fatal(tokens: Seq<Token>, pos: int, scope: Span)
    requires
        punct_at(tokens, pos, ','),
        match argument_at(tokens, pos + 1) {
            Some((None, _)) => true,
            _ => false,
        },
    ensures
        argument_list(tokens, pos, scope) == Err::<(Seq<ArgumentView>, int), Seq<Entry>>(
            lone(tokens[pos + 1].spec_span(), Problem::MissingArgumentName),
        ),
        fatal(lone(tokens[pos + 1].spec_span(), Problem::MissingArgumentName)),
{
}

/// A declaration whose signature fails reports that one problem and
/// nothing of its body; where the problem is fatal, as an argument without
/// a name is, the batch reports it and nothing else.
pub proof fn lemma_signature_failure_stands_alone(tokens: Seq<Token>, pos: int, scope: Span)
    requires
        signature_at(tokens, pos, scope) is Err,
    ensures
        signature_at(tokens, pos, scope)->Err_0.len() == 1,
        process_at(tokens, pos, scope) == Err::<ProcessView, (Seq<Entry>, int)>(
            (signature_at(tokens, pos, scope)->Err_0, tokens.len() as int),
        ),
        fatal(signature_at(tokens, pos, scope)->Err_0) && 0 <= pos < tokens.len() && word_at(
            tokens,
            pos,
        ) is Some ==> batch_at(tokens, pos, scope) == Err::<Seq<ProcessView>, Seq<Entry>>(
            signature_at(tokens, pos, scope)->Err_0,
        ),
{
    lemma_signature_end(tokens, pos, scope);
}

/// Whether the arguments that start at `pos` are well formed up to the
/// comma at `comma`: each an argument with a name, one behind the other.
pub open spec fn reaches(tokens: Seq<Token>, pos: int, comma: int) -> bool
    decreases comma - pos,
{
    if pos >= comma {
        pos == comma
    } else {
        &&& punct_at(tokens, pos, ',')
        &&& match argument_at(tokens, pos + 1) {
            Some((Some(name), end)) => argument_split(tokens, pos + 1, end, name) is Some
                && pos < end <= comma && reaches(tokens, end, comma),
            _ => false,
        }
    }
}

/// An argument without a name, wherever it stands among the arguments,
/// fails the signature with the one fatal entry that points at it.
pub proof fn lemma_unnamed_argument_fails_the_list(
    tokens: Seq<Token>,
    pos: int,
    comma: int,
    scope: Span,
)
    requires
        0 <= pos <= comma,
        comma + 1 < tokens.len(),
        argument_list(tokens, comma, scope) == Err::<(Seq<ArgumentView>, int), Seq<Entry>>(
            lone(tokens[comma + 1].spec_span(), Problem::MissingArgumentName),
        ),
        reaches(tokens, pos, comma),
    ensures
        argument_list(tokens, pos, scope) == Err::<(Seq<ArgumentView>, int), Seq<Entry>>(
            lone(tokens[comma + 1].spec_span(), Problem::MissingArgumentName),
        ),
    decreases comma - pos,
{
    if pos < comma {
        match argument_at(tokens, pos + 1) {
            Some((_, end)) => {
                lemma_unnamed_argument_fails_the_list(tokens, end, comma, scope);
            },
            None => {},
        }
    }
}

impl Argument {
    /// Splits the argument in `tokens[from..to]` whose name is `name` into
    /// its parts. Gives `None` where the first word of the argument is not
    /// `name` with a colon and a type behind it.
    pub fn split(tokens: &Vec<Token>, from: usize, to: usize, name: String) -> (r: Option<
        Argument,
    >)
        requires
            from <= to <= tokens.len(),
        ensures
            match r {
                Some(arg) => argument_split(tokens@, from as int, to as int, name@) == Some(arg@),
                None => argument_split(tokens@, from as int, to as int, name@) is None,
            },
    {
        let mut at: usize = from;
        while at < to && peek_word(tokens, at).is_none()
            invariant
                from <= at <= to <= tokens.len(),
                first_word(tokens@, from as int, to as int) == first_word(
                    tokens@,
                    at as int,
                    to as int,
                ),
            decreases to - at,
        {
            at = at + 1;
        }
        if to - at <= 2 {
            return None;
        }
        let named = match peek_word(tokens, at) {
            Some(word) => same_text(word, name.as_str()),
            None => false,
        };
        if !named || !peek_punct(tokens, at + 1, ':') {
            return None;
        }
        let attrs = render(tokens, from, at);
        let ty = render(tokens, at + 2, to);
        Some(Argument { attrs, name, ty })
    }

    /// The name of the argument at `span`, given the name that was found
    /// on it: an argument without a name is fatal.
    pub fn named(span: Span, found: Option<String>) -> (r: Result<String, Diagnostic>)
        ensures
            match r {
                Ok(name) => found == Some(name),
                Err(d) => found is None && d@ == lone(span, Problem::MissingArgumentName),
            },
    {
        match found {
            Some(name) => Ok(name),
            None => Err(Diagnostic::single(span, Problem::MissingArgumentName)),
        }
    }
}

impl Process {
    /// Parses the arguments that start at `pos`, each led by a comma.
    /// Returns them and the position behind the last.
    pub fn parse_arguments(tokens: &Vec<Token>, pos: usize, scope: Span) -> (r: Result<
        (Vec<Argument>, usize),
        Diagnostic,
    >)
        requires
            pos <= tokens.len(),
        ensures
            match r {
                Ok((list, end)) => argument_list(tokens@, pos as int, scope) == Ok::<
                    (Seq<ArgumentView>, int),
                    Seq<Entry>,
                >((arguments_view(list@), end as int)) && pos <= end <= tokens.len(),
                Err(d) => argument_list(tokens@, pos as int, scope) == Err::<
                    (Seq<ArgumentView>, int),
                    Seq<Entry>,
                >(d@),
            },
    {
        let mut list: Vec<Argument> = Vec::new();
        let mut at: usize = pos;
        proof {
            match argument_list(tokens@, pos as int, scope) {
                Ok((more, _)) => {
                    assert(arguments_view(list@) + more =~= more);
                },
                Err(_) => {},
            }
        }
        while peek_punct(tokens, at, ',')
            invariant
                pos <= at <= tokens.len(),
                argument_list(tokens@, pos as int, scope) == after_arguments(
                    arguments_view(list@),
                    argument_list(tokens@, at as int, scope),
                ),
            decreases tokens.len() - at,
        {
            let ghost before = arguments_view(list@);
            match find_argument(tokens, at + 1) {
                None => {
                    return Err(
                        Diagnostic::single(
                            locate(tokens, at + 1, scope),
                            Problem::ExpectedArgument,
                        ),
                    );
                },
                Some((found, end)) => {
                    let name = match Argument::named(tokens[at + 1].span(), found) {
                        Ok(name) => name,
                        Err(d) => {
                            return Err(d);
                        },
                    };
                    let arg = match Argument::split(tokens, at + 1, end, name) {
                        Some(arg) => arg,
                        None => {
                            return Err(
                                Diagnostic::single(
                                    tokens[at + 1].span(),
                                    Problem::ExpectedArgument,
                                ),
                            );
                        },
                    };
                    let ghost first = arg@;
                    list.push(arg);
                    proof {
                        assert(arguments_view(list@) =~= before + seq![first]);
                        match argument_list(tokens@, end as int, scope) {
                            Ok((more, _)) => {
                                assert(before + (seq![first] + more) =~= (before + seq![first])
                                    + more);
                            },
                            Err(_) => {},
                        }
                    }
                    at = end;
                },
            }
        }
        proof {
            assert(arguments_view(list@) + Seq::<ArgumentView>::empty() =~= arguments_view(list@));
        }
        Ok((list, at))
    }

    /// Parses the declaration that starts at `pos`. Returns the declaration
    /// and the position behind its body.
    pub fn parse(tokens: &Vec<Token>, pos: usize, scope: Span) -> (r: Result<
        (Process, usize),
        Halt,
    >)
        ensures
            match r {
                Ok((v, end)) => {
                    &&& process_at(tokens@, pos as int, scope) == Ok::<
                        ProcessView,
                        (Seq<Entry>, int),
                    >(v@)
                    &&& end == process_end(tokens@, pos as int, scope)
                    &&& pos < end <= tokens.len()
                },
                Err(h) => {
                    &&& process_at(tokens@, pos as int, scope) == Err::<
                        ProcessView,
                        (Seq<Entry>, int),
                    >((h.diagnostic@, h.stop as int))
                    &&& h.diagnostic@.len() > 0
                },
            },
    {
        proof {
            reveal(signature_at);
        }
        let len = tokens.len();
        if pos > len {
            return Err(Halt::at(scope, Problem::ExpectedVisibility, len));
        }
        let name_at = match find_visibility_end(tokens, pos) {
            Some(end) => end,
            None => {
                return Err(Halt::at(locate(tokens, pos, scope), Problem::ExpectedVisibility, len));
            },
        };
        let visibility = render(tokens, pos, name_at);
        let name = match peek_word(tokens, name_at) {
            Some(word) => {
                if !word.as_str().is_empty() && is_plain_ident(word) {
                    word.clone()
                } else {
                    return Err(
                        Halt::at(locate(tokens, name_at, scope), Problem::ExpectedIdent, len),
                    );
                }
            },
            None => {
                return Err(Halt::at(locate(tokens, name_at, scope), Problem::ExpectedIdent, len));
            },
        };
        let inner = match peek_group(tokens, name_at + 1, Delim::Paren) {
            Some(inner) => inner,
            None => {
                return Err(
                    Halt::at(locate(tokens, name_at + 1, scope), Problem::ExpectedParens, len),
                );
            },
        };
        match find_type_end(inner, 0) {
            None => {
                return Err(
                    Halt::at(
                        locate(inner, 0, tokens[name_at + 1].span()),
                        Problem::ExpectedType,
                        len,
                    ),
                );
            },
            Some(end) => {
                if end < inner.len() {
                    return Err(Halt::at(inner[end].span(), Problem::UnexpectedToken, len));
                }
            },
        }
        let input_ty = render(inner, 0, inner.len());
        proof {
            assert(inner@.subrange(0, inner@.len() as int) =~= inner@);
        }
        let has_args = peek_punct(tokens, name_at + 2, ',');
        let (list, arrow_at) = match Process::parse_arguments(tokens, name_at + 2, scope) {
            Ok(found) => found,
            Err(diagnostic) => {
                proof {
                    lemma_argument_list_end(tokens@, name_at + 2, scope);
                }
                return Err(Halt { diagnostic, stop: len });
            },
        };
        if !peek_pair(tokens, arrow_at, '-', '>') {
            return Err(Halt::at(locate(tokens, arrow_at, scope), Problem::ExpectedArrow, len));
        }
        let body_at = match find_type_end(tokens, arrow_at + 2) {
            Some(end) => end,
            None => {
                return Err(
                    Halt::at(locate(tokens, arrow_at + 2, scope), Problem::ExpectedType, len),
                );
            },
        };
        let result_ty = render(tokens, arrow_at + 2, body_at);
        let content = match peek_group(tokens, body_at, Delim::Brace) {
            Some(content) => content,
            None => {
                return Err(Halt::at(locate(tokens, body_at, scope), Problem::ExpectedBraces, len));
            },
        };
        let ghost list_view = arguments_view(list@);
        let args = if has_args {
            Some(list)
        } else {
            None
        };
        match FlowBody::parse(content, 0, tokens[body_at].span()) {
            Ok(body) => Ok(
                (Process { visibility, name, input_ty, args, result_ty, body }, body_at + 1),
            ),
            Err(diagnostic) => Err(Halt { diagnostic, stop: body_at + 1 }),
        }
    }
}

impl Processes {
    /// Parses a batch of declarations: all of `tokens`.
    pub fn parse(tokens: &Vec<Token>, scope: Span) -> (r: Result<Processes, Diagnostic>)
        ensures
            match r {
                Ok(batch) => batch_at(tokens@, 0, scope) == Ok::<Seq<ProcessView>, Seq<Entry>>(
                    batch@,
                ),
                Err(d) => batch_at(tokens@, 0, scope) == Err::<Seq<ProcessView>, Seq<Entry>>(d@)
                    && well_formed(d@),
            },
    {
        let mut list: Vec<Process> = Vec::new();
        let mut errors = Diagnostic { entries: Vec::new() };
        let mut at: usize = 0;
        proof {
            match batch_at(tokens@, 0, scope) {
                Ok(more) => {
                    assert(processes_view(list@) + more =~= more);
                },
                Err(later) => {
                    assert(errors@ + later =~= later);
                },
            }
        }
        while at < tokens.len()
            invariant
                batch_at(tokens@, 0, scope) == pending(
                    processes_view(list@),
                    errors@,
                    batch_at(tokens@, at as int, scope),
                ),
            decreases tokens.len() - at,
        {
            if peek_word(tokens, at).is_none() {
                errors.combine(Diagnostic::single(tokens[at].span(), Problem::UnexpectedToken));
                proof {
                    lemma_batch_well_formed(tokens@, 0, scope);
                }
                return Err(errors);
            }
            let ghost before = processes_view(list@);
            let ghost gathered = errors@;
            match Process::parse(tokens, at, scope) {
                Ok((process, next)) => {
                    let ghost first = process@;
                    if errors.len() == 0 {
                        list.push(process);
                        proof {
                            assert(processes_view(list@) =~= before + seq![first]);
                            match batch_at(tokens@, next as int, scope) {
                                Ok(more) => {
                                    assert(before + (seq![first] + more) =~= (before + seq![first])
                                        + more);
                                },
                                Err(_) => {},
                            }
                        }
                    }
                    at = next;
                },
                Err(h) => {
                    if h.diagnostic.is_fatal() {
                        proof {
                            lemma_batch_well_formed(tokens@, 0, scope);
                        }
                        return Err(h.diagnostic);
                    }
                    let ghost e = h.diagnostic@;
                    let next = if at < h.stop && h.stop <= tokens.len() {
                        h.stop
                    } else {
                        at + 1
                    };
                    errors.combine(h.diagnostic);
                    proof {
                        match batch_at(tokens@, next as int, scope) {
                            Ok(_) => {},
                            Err(later) => {
                                assert(gathered + (e + later) =~= (gathered + e) + later);
                                assert((e + later)[0] == e[0]);
                            },
                        }
                    }
                    at = next;
                },
            }
        }
        if errors.len() == 0 {
            proof {
                assert(processes_view(list@) + Seq::<ProcessView>::empty() =~= processes_view(
                    list@,
                ));
            }
            Ok(Processes(list))
        } else {
            proof {
                lemma_batch_well_formed(tokens@, 0, scope);
            }
            Err(errors)
        }
    }
}

} // verus!
