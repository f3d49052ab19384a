//! The grammar of statements and flow bodies.
//!
//! A flow body is a run of statements that ends where its tokens end. A
//! statement is chosen by its leading word: `if`, `async` and `sync` open a
//! compound statement, any other word opens a call. The body of a compound
//! statement is not bracketed: it takes the rest of the tokens.
//!
//! A statement is tried without moving the cursor; the cursor then goes to
//! where the attempt ended. Every failed statement's diagnostic is kept,
//! the scan goes on behind it, and in the end the diagnostics are merged
//! into one, in source order. A fatal diagnostic ends the scan and is
//! reported alone. Statements come out in source order.

use vstd::prelude::*;
use crate::ast::{
    block_view, body_named, stmt_named, AsyncBlock, Call, ConditionExpr, FlowBody, If, IfView,
    Stmt, StmtView, SyncBlock,
};
use crate::call::{call_at, call_end, lemma_call_fails_softly, lemma_call_named};
use crate::condition::{
    condition_at, condition_end, lemma_condition_end, lemma_condition_fails_softly,
    lemma_condition_named,
};
use crate::diagnostic::{
    after_error, after_item, fatal, lemma_combine_well_formed, lone, pending, well_formed,
    Diagnostic, Entry, Halt, Problem,
};
use crate::token::{locate, peek_word, same_text, span_at, word_at, Span, Token};

verus! {

/// Whether the word `word` stands at `pos`.
pub open spec fn is_word(tokens: Seq<Token>, pos: int, word: Seq<char>) -> bool {
    word_at(tokens, pos) == Some(word)
}

/// Whether the word at `pos` opens a compound statement.
pub open spec fn opens_block(tokens: Seq<Token>, pos: int) -> bool {
    is_word(tokens, pos, "if"@) || is_word(tokens, pos, "async"@) || is_word(tokens, pos, "sync"@)
}

/// The position behind the statement that starts at `pos`: the end of the
/// tokens for a compound statement, the end of the call for a call.
pub open spec fn stmt_end(tokens: Seq<Token>, pos: int) -> int {
    if opens_block(tokens, pos) {
        tokens.len() as int
    } else {
        call_end(tokens, pos)
    }
}

/// Where the scan goes on behind a statement at `pos` that was given up
/// at `stop`: at `stop`, and at the next token at the earliest.
pub open spec fn resume(tokens: Seq<Token>, pos: int, stop: int) -> int {
    if pos < stop <= tokens.len() {
        stop
    } else {
        pos + 1
    }
}

/// The block that the word `keyword` opens at `pos`: the flow body behind
/// the word. A word other than `keyword` is the fatal problem `wrong`.
pub open spec fn block_at(
    tokens: Seq<Token>,
    pos: int,
    scope: Span,
    keyword: Seq<char>,
    wrong: Problem,
) -> Result<Seq<StmtView>, (Seq<Entry>, int)>
    decreases tokens.len() - pos, 1int,
{
    match word_at(tokens, pos) {
        None => Err((lone(span_at(tokens, pos, scope), Problem::ExpectedIdent), pos)),
        Some(word) => if word != keyword {
            Err((lone(tokens[pos].spec_span(), wrong), pos + 1))
        } else {
            match flow_at(tokens, pos + 1, scope) {
                Ok(body) => Ok(body),
                Err(e) => Err((e, tokens.len() as int)),
            }
        },
    }
}

/// The `if` statement that starts at `pos`: the word `if`, a condition,
/// and the flow body behind the condition.
pub open spec fn if_at(tokens: Seq<Token>, pos: int, scope: Span) -> Result<
    IfView,
    (Seq<Entry>, int),
>
    decreases tokens.len() - pos, 1int,
{
    match word_at(tokens, pos) {
        None => Err((lone(span_at(tokens, pos, scope), Problem::ExpectedIdent), pos)),
        Some(word) => if word != "if"@ {
            Err((lone(tokens[pos].spec_span(), Problem::NotIf), pos + 1))
        } else {
            match condition_at(tokens, pos + 1, scope) {
                Err(h) => Err(h),
                Ok(condition) => {
                    proof {
                        lemma_condition_end(tokens, pos + 1, scope);
                    }
                    match flow_at(tokens, condition_end(tokens, pos + 1), scope) {
                        Ok(body) => Ok(IfView { condition, body }),
                        Err(e) => Err((e, tokens.len() as int)),
                    }
                },
            }
        },
    }
}

/// The statement that starts at `pos`, chosen by the word there.
pub open spec fn stmt_at(tokens: Seq<Token>, pos: int, scope: Span) -> Result<
    StmtView,
    (Seq<Entry>, int),
>
    decreases tokens.len() - pos, 2int,
{
    if is_word(tokens, pos, "if"@) {
        match if_at(tokens, pos, scope) {
            Ok(v) => Ok(StmtView::IfStmt(v)),
            Err(h) => Err(h),
        }
    } else if is_word(tokens, pos, "async"@) {
        match block_at(tokens, pos, scope, "async"@, Problem::NotAsync) {
            Ok(v) => Ok(StmtView::AsyncBlockStmt(v)),
            Err(h) => Err(h),
        }
    } else if is_word(tokens, pos, "sync"@) {
        match block_at(tokens, pos, scope, "sync"@, Problem::NotSync) {
            Ok(v) => Ok(StmtView::SyncBlockStmt(v)),
            Err(h) => Err(h),
        }
    } else {
        match call_at(tokens, pos, scope) {
            Ok(v) => Ok(StmtView::CallStmt(v)),
            Err(h) => Err(h),
        }
    }
}

/// The flow body that fills `tokens` from `pos` to the end: its statements
/// in source order, or the merged diagnostics of all that failed. A token
/// that is no word cannot open a statement: the scan ends there.
pub open spec fn flow_at(tokens: Seq<Token>, pos: int, scope: Span) -> Result<
    Seq<StmtView>,
    Seq<Entry>,
>
    decreases tokens.len() - pos, 3int,
{
    if pos < 0 || pos >= tokens.len() {
        Ok(Seq::empty())
    } else if word_at(tokens, pos) is None {
        Err(lone(tokens[pos].spec_span(), Problem::ExpectedIdent))
    } else {
        match stmt_at(tokens, pos, scope) {
            Ok(first) => after_item(first, flow_at(tokens, stmt_end(tokens, pos), scope)),
            Err((e, stop)) => if fatal(e) {
                Err(e)
            } else {
                after_error(e, flow_at(tokens, resume(tokens, pos, stop), scope))
            },
        }
    }
}

/// Every diagnostic of a flow body is well formed: it has an entry, and a
/// fatal entry stands alone.
pub proof fn lemma_flow_well_formed(tokens: Seq<Token>, pos: int, scope: Span)
    ensures
        match flow_at(tokens, pos, scope) {
            Ok(_) => true,
            Err(e) => well_formed(e),
        },
        match stmt_at(tokens, pos, scope) {
            Ok(_) => true,
            Err((e, _)) => well_formed(e),
        },
    decreases tokens.len() - pos,
{
    lemma_call_fails_softly(tokens, pos, scope);
    if 0 <= pos < tokens.len() {
        lemma_condition_fails_softly(tokens, pos + 1, scope);
        lemma_flow_well_formed(tokens, pos + 1, scope);
        if condition_at(tokens, pos + 1, scope) is Ok {
            lemma_condition_end(tokens, pos + 1, scope);
            lemma_flow_well_formed(tokens, condition_end(tokens, pos + 1), scope);
        }
        match stmt_at(tokens, pos, scope) {
            Ok(_) => {
                lemma_flow_well_formed(tokens, stmt_end(tokens, pos), scope);
            },
            Err((e, stop)) => {
                let next = resume(tokens, pos, stop);
                lemma_flow_well_formed(tokens, next, scope);
                if !fatal(e) {
                    match flow_at(tokens, next, scope) {
                        Ok(_) => {},
                        Err(later) => {
                            if !fatal(later) {
                                lemma_combine_well_formed(e, later);
                            }
                        },
                    }
                }
            },
        }
    }
}

/// Every call of a flow body that parses has a name.
pub proof fn lemma_flow_named(tokens: Seq<Token>, pos: int, scope: Span)
    ensures
        match flow_at(tokens, pos, scope) {
            Ok(body) => body_named(body),
            Err(_) => true,
        },
        match stmt_at(tokens, pos, scope) {
            Ok(stmt) => stmt_named(stmt),
            Err(_) => true,
        },
    decreases tokens.len() - pos,
{
    lemma_call_named(tokens, pos, scope);
    if 0 <= pos < tokens.len() {
        lemma_condition_named(tokens, pos + 1, scope);
        lemma_flow_named(tokens, pos + 1, scope);
        if condition_at(tokens, pos + 1, scope) is Ok {
            lemma_condition_end(tokens, pos + 1, scope);
            lemma_flow_named(tokens, condition_end(tokens, pos + 1), scope);
        }
        match stmt_at(tokens, pos, scope) {
            Ok(first) => {
                let next = stmt_end(tokens, pos);
                lemma_flow_named(tokens, next, scope);
                match flow_at(tokens, next, scope) {
                    Ok(rest) => {
                        let body = seq![first] + rest;
                        assert forall|i: int| 0 <= i < body.len() implies stmt_named(
                            #[trigger] body[i],
                        ) by {
                            if i > 0 {
                                assert(body[i] == rest[i - 1]);
                            }
                        }
                    },
                    Err(_) => {},
                }
            },
            Err(_) => {},
        }
    }
}

/// A statement that parses ends inside the tokens, behind where it began.
pub proof fn lemma_stmt_end(tokens: Seq<Token>, pos: int, scope: Span)
    requires
        0 <= pos < tokens.len(),
        stmt_at(tokens, pos, scope) is Ok,
    ensures
        pos < stmt_end(tokens, pos) <= tokens.len(),
{
}

/// The positions at which the statements of a flow body start, in source
/// order.
pub open spec fn statement_starts(tokens: Seq<Token>, pos: int, scope: Span) -> Seq<int>
    decreases tokens.len() - pos,
{
    if pos < 0 || pos >= tokens.len() || stmt_at(tokens, pos, scope) is Err {
        Seq::empty()
    } else {
        proof {
            lemma_stmt_end(tokens, pos, scope);
        }
        seq![pos] + statement_starts(tokens, stmt_end(tokens, pos), scope)
    }
}

/// A flow body that parses gives its statements in source order: as many
/// as stand in the tokens, each the statement written at its place, each
/// behind the one before.
pub proof fn lemma_flow_in_source_order(tokens: Seq<Token>, pos: int, scope: Span)
    requires
        flow_at(tokens, pos, scope) is Ok,
    ensures
        ({
            let found = flow_at(tokens, pos, scope)->Ok_0;
            let starts = statement_starts(tokens, pos, scope);
            &&& found.len() == starts.len()
            &&& forall|i: int|
                0 <= i < found.len() ==> pos <= #[trigger] starts[i] < tokens.len() && stmt_at(
                    tokens,
                    starts[i],
                    scope,
                ) == Ok::<StmtView, (Seq<Entry>, int)>(found[i])
            &&& forall|i: int, j: int|
                0 <= i < j < found.len() ==> #[trigger] starts[i] < #[trigger] starts[j]
        }),
    decreases tokens.len() - pos,
{
    if 0 <= pos < tokens.len() {
        match stmt_at(tokens, pos, scope) {
            Ok(first) => {
                lemma_stmt_end(tokens, pos, scope);
                let next = stmt_end(tokens, pos);
                lemma_flow_in_source_order(tokens, next, scope);
                let rest = flow_at(tokens, next, scope)->Ok_0;
                let found = flow_at(tokens, pos, scope)->Ok_0;
                let later = statement_starts(tokens, next, scope);
                let starts = statement_starts(tokens, pos, scope);
                assert(found == seq![first] + rest);
                assert(starts == seq![pos] + later);
                assert forall|i: int| 0 <= i < found.len() implies pos <= #[trigger] starts[i]
                    < tokens.len() && stmt_at(tokens, starts[i], scope) == Ok::<
                    StmtView,
                    (Seq<Entry>, int),
                >(found[i]) by {
                    if i > 0 {
                        assert(starts[i] == later[i - 1]);
                        assert(found[i] == rest[i - 1]);
                    }
                }
                assert forall|i: int, j: int| 0 <= i < j < found.len() implies #[trigger] starts[i]
                    < #[trigger] starts[j] by {
                    assert(starts[j] == later[j - 1]);
                    if i > 0 {
                        assert(starts[i] == later[i - 1]);
                    }
                }
            },
            Err((e, stop)) => {
                lemma_flow_well_formed(tokens, pos, scope);
            },
        }
    }
}

/// Two statements that fail, neither fatally, give one diagnostic: the
/// entries of the first, then those of the second.
pub proof fn lemma_two_failures_one_diagnostic(
    tokens: Seq<Token>,
    first: int,
    second: int,
    scope: Span,
)
    requires
        0 <= first < tokens.len(),
        word_at(tokens, first) is Some,
        stmt_at(tokens, first, scope) is Err,
        !fatal(stmt_at(tokens, first, scope)->Err_0.0),
        second == resume(tokens, first, stmt_at(tokens, first, scope)->Err_0.1),
        second < tokens.len(),
        word_at(tokens, second) is Some,
        stmt_at(tokens, second, scope) is Err,
        !fatal(stmt_at(tokens, second, scope)->Err_0.0),
        flow_at(
            tokens,
            resume(tokens, second, stmt_at(tokens, second, scope)->Err_0.1),
            scope,
        ) is Ok,
    ensures
        flow_at(tokens, first, scope) == Err::<Seq<StmtView>, Seq<Entry>>(
            stmt_at(tokens, first, scope)->Err_0.0 + stmt_at(tokens, second, scope)->Err_0.0,
        ),
{
    lemma_flow_well_formed(tokens, first, scope);
    lemma_flow_well_formed(tokens, second, scope);
    let a = stmt_at(tokens, first, scope)->Err_0.0;
    let b = stmt_at(tokens, second, scope)->Err_0.0;
    assert(flow_at(tokens, second, scope) == Err::<Seq<StmtView>, Seq<Entry>>(b));
}

impl If {
    /// Parses the `if` statement that starts at `pos`. Its body takes the
    /// rest of the tokens.
    pub fn parse(tokens: &Vec<Token>, pos: usize, scope: Span) -> (r: Result<(If, usize), Halt>)
        ensures
            match r {
                Ok((v, end)) => {
                    &&& if_at(tokens@, pos as int, scope) == Ok::<IfView, (Seq<Entry>, int)>(v@)
                    &&& end == tokens.len()
                    &&& pos < end
                },
                Err(h) => {
                    &&& if_at(tokens@, pos as int, scope) == Err::<IfView, (Seq<Entry>, int)>(
                        (h.diagnostic@, h.stop as int),
                    )
                    &&& h.diagnostic@.len() > 0
                },
            },
        decreases tokens.len() - pos, 1int,
    {
        match peek_word(tokens, pos) {
            None => {
                return Err(Halt::at(locate(tokens, pos, scope), Problem::ExpectedIdent, pos));
            },
            Some(word) => {
                if !same_text(word, "if") {
                    return Err(Halt::at(tokens[pos].span(), Problem::NotIf, pos + 1));
                }
            },
        }
        let (condition, next) = match ConditionExpr::parse(tokens, pos + 1, scope) {
            Ok(found) => found,
            Err(h) => {
                proof {
                    lemma_condition_fails_softly(tokens@, pos + 1, scope);
                }
                return Err(h);
            },
        };
        match FlowBody::parse(tokens, next, scope) {
            Ok(body) => Ok((If { condition, body }, tokens.len())),
            Err(diagnostic) => Err(Halt { diagnostic, stop: tokens.len() }),
        }
    }
}

impl AsyncBlock {
    /// Parses the `async` block that starts at `pos`. Its body takes the
    /// rest of the tokens.
    pub fn parse(tokens: &Vec<Token>, pos: usize, scope: Span) -> (r: Result<
        (AsyncBlock, usize),
        Halt,
    >)
        ensures
            match r {
                Ok((v, end)) => {
                    &&& block_at(tokens@, pos as int, scope, "async"@, Problem::NotAsync) == Ok::<
                        Seq<StmtView>,
                        (Seq<Entry>, int),
                    >(v@)
                    &&& end == tokens.len()
                    &&& pos < end
                },
                Err(h) => {
                    &&& block_at(tokens@, pos as int, scope, "async"@, Problem::NotAsync) == Err::<
                        Seq<StmtView>,
                        (Seq<Entry>, int),
                    >((h.diagnostic@, h.stop as int))
                    &&& h.diagnostic@.len() > 0
                },
            },
        decreases tokens.len() - pos, 1int,
    {
        match peek_word(tokens, pos) {
            None => {
                return Err(Halt::at(locate(tokens, pos, scope), Problem::ExpectedIdent, pos));
            },
            Some(word) => {
                if !same_text(word, "async") {
                    return Err(Halt::at(tokens[pos].span(), Problem::NotAsync, pos + 1));
                }
            },
        }
        match FlowBody::parse(tokens, pos + 1, scope) {
            Ok(body) => Ok((AsyncBlock { body }, tokens.len())),
            Err(diagnostic) => Err(Halt { diagnostic, stop: tokens.len() }),
        }
    }
}

impl SyncBlock {
    /// Parses the `sync` block that starts at `pos`. Its body takes the
    /// rest of the tokens.
    pub fn parse(tokens: &Vec<Token>, pos: usize, scope: Span) -> (r: Result<
        (SyncBlock, usize),
        Halt,
    >)
        ensures
            match r {
                Ok((v, end)) => {
                    &&& block_at(tokens@, pos as int, scope, "sync"@, Problem::NotSync) == Ok::<
                        Seq<StmtView>,
                        (Seq<Entry>, int),
                    >(v@)
                    &&& end == tokens.len()
                    &&& pos < end
                },
                Err(h) => {
                    &&& block_at(tokens@, pos as int, scope, "sync"@, Problem::NotSync) == Err::<
                        Seq<StmtView>,
                        (Seq<Entry>, int),
                    >((h.diagnostic@, h.stop as int))
                    &&& h.diagnostic@.len() > 0
                },
            },
        decreases tokens.len() - pos, 1int,
    {
        match peek_word(tokens, pos) {
            None => {
                return Err(Halt::at(locate(tokens, pos, scope), Problem::ExpectedIdent, pos));
            },
            Some(word) => {
                if !same_text(word, "sync") {
                    return Err(Halt::at(tokens[pos].span(), Problem::NotSync, pos + 1));
                }
            },
        }
        match FlowBody::parse(tokens, pos + 1, scope) {
            Ok(body) => Ok((SyncBlock { body }, tokens.len())),
            Err(diagnostic) => Err(Halt { diagnostic, stop: tokens.len() }),
        }
    }
}

/// How a statement is parsed, by its leading word.
#[derive(Clone, Copy, Debug, PartialEq, Eq, Structural)]
pub enum Dispatch {
    If,
    Async,
    Sync,
    Call,
}

/// The branch that the word at `pos` selects.
pub open spec fn dispatch_at(tokens: Seq<Token>, pos: int) -> Dispatch {
    if is_word(tokens, pos, "if"@) {
        Dispatch::If
    } else if is_word(tokens, pos, "async"@) {
        Dispatch::Async
    } else if is_word(tokens, pos, "sync"@) {
        Dispatch::Sync
    } else {
        Dispatch::Call
    }
}

/// Selects the branch for the statement at `pos` by the word there.
pub fn dispatch(tokens: &Vec<Token>, pos: usize) -> (r: Dispatch)
    ensures
        r == dispatch_at(tokens@, pos as int),
{
    match peek_word(tokens, pos) {
        None => Dispatch::Call,
        Some(word) => {
            if same_text(word, "if") {
                Dispatch::If
            } else if same_text(word, "async") {
                Dispatch::Async
            } else if same_text(word, "sync") {
                Dispatch::Sync
            } else {
                Dispatch::Call
            }
        },
    }
}

impl Stmt {
    /// Parses the statement that starts at `pos`. Returns the statement
    /// and the position behind it.
    pub fn parse(tokens: &Vec<Token>, pos: usize, scope: Span) -> (r: Result<(Stmt, usize), Halt>)
        ensures
            match r {
                Ok((v, end)) => {
                    &&& stmt_at(tokens@, pos as int, scope) == Ok::<StmtView, (Seq<Entry>, int)>(
                        v@,
                    )
                    &&& end == stmt_end(tokens@, pos as int)
                    &&& pos < end <= tokens.len()
                },
                Err(h) => {
                    &&& stmt_at(tokens@, pos as int, scope) == Err::<StmtView, (Seq<Entry>, int)>(
                        (h.diagnostic@, h.stop as int),
                    )
                    &&& h.diagnostic@.len() > 0
                },
            },
        decreases tokens.len() - pos, 2int,
    {
        match dispatch(tokens, pos) {
            Dispatch::If => match If::parse(tokens, pos, scope) {
                Ok((v, end)) => Ok((v.into(), end)),
                Err(h) => Err(h),
            },
            Dispatch::Async => match AsyncBlock::parse(tokens, pos, scope) {
                Ok((v, end)) => Ok((v.into(), end)),
                Err(h) => Err(h),
            },
            Dispatch::Sync => match SyncBlock::parse(tokens, pos, scope) {
                Ok((v, end)) => Ok((v.into(), end)),
                Err(h) => Err(h),
            },
            Dispatch::Call => match Call::parse(tokens, pos, scope) {
                Ok((v, end)) => Ok((v.into(), end)),
                Err(h) => {
                    proof {
                        lemma_call_fails_softly(tokens@, pos as int, scope);
                    }
                    Err(h)
                },
            },
        }
    }
}

impl FlowBody {
    /// The code that the flow body expands to. Nothing is generated for a
    /// flow body: the expansion is empty.
    pub fn expand(&self) -> (r: Vec<Token>)
        ensures
            r@.len() == 0,
    {
        Vec::new()
    }

    /// Parses the flow body that fills `tokens` from `pos` to the end.
    pub fn parse(tokens: &Vec<Token>, pos: usize, scope: Span) -> (r: Result<FlowBody, Diagnostic>)
        ensures
            match r {
                Ok(body) => flow_at(tokens@, pos as int, scope) == Ok::<
                    Seq<StmtView>,
                    Seq<Entry>,
                >(body@),
                Err(d) => flow_at(tokens@, pos as int, scope) == Err::<Seq<StmtView>, Seq<Entry>>(
                    d@,
                ) && d@.len() > 0,
            },
        decreases tokens.len() - pos, 3int,
    {
        let mut stmts: Vec<Stmt> = Vec::new();
        let mut errors = Diagnostic { entries: Vec::new() };
        let mut at: usize = pos;
        proof {
            let rest = flow_at(tokens@, pos as int, scope);
            match rest {
                Ok(more) => {
                    assert(block_view(stmts) + more =~= more);
                },
                Err(later) => {
                    assert(errors@ + later =~= later);
                },
            }
        }
        while at < tokens.len()
            invariant
                pos <= at,
                flow_at(tokens@, pos as int, scope) == pending(
                    block_view(stmts),
                    errors@,
                    flow_at(tokens@, at as int, scope),
                ),
            decreases tokens.len() - at,
        {
            if peek_word(tokens, at).is_none() {
                errors.combine(Diagnostic::single(tokens[at].span(), Problem::ExpectedIdent));
                return Err(errors);
            }
            let ghost before = block_view(stmts);
            let ghost gathered = errors@;
            match Stmt::parse(tokens, at, scope) {
                Ok((stmt, next)) => {
                    let ghost first = stmt@;
                    if errors.len() == 0 {
                        stmts.push(stmt);
                        proof {
                            assert(block_view(stmts) =~= before + seq![first]);
                            match flow_at(tokens@, next as int, scope) {
                                Ok(more) => {
                                    assert(before + (seq![first] + more) =~= (before + seq![first])
                                        + more);
                                },
                                Err(_) => {},
                            }
                        }
                    }
                    at = next;
                },
                Err(h) => {
                    if h.diagnostic.is_fatal() {
                        return Err(h.diagnostic);
                    }
                    let ghost e = h.diagnostic@;
                    let next = if at < h.stop && h.stop <= tokens.len() {
                        h.stop
                    } else {
                        at + 1
                    };
                    errors.combine(h.diagnostic);
                    proof {
                        match flow_at(tokens@, next as int, scope) {
                            Ok(_) => {},
                            Err(later) => {
                                assert(gathered + (e + later) =~= (gathered + e) + later);
                                assert((e + later)[0] == e[0]);
                            },
                        }
                    }
                    at = next;
                },
            }
        }
        if errors.len() == 0 {
            proof {
                assert(block_view(stmts) + Seq::<StmtView>::empty() =~= block_view(stmts));
            }
            Ok(FlowBody { stmts })
        } else {
            Err(errors)
        }
    }
}

} // verus!
