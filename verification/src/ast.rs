//! The syntax tree of a process body, and the mathematical value of each
//! of its nodes.

use vstd::prelude::*;
use vstd::std_specs::convert::IntoSpecImpl;

verus! {

/// A procedure or process that is called to do work in a process.
#[derive(Debug, PartialEq, Eq)]
pub struct Call {
    pub name: String,
    /// `None` where no parentheses were written, `Some` where they were:
    /// one call for each argument, none for empty parentheses.
    pub args: Option<Vec<Call>>,
}

/// A block whose statements run concurrently with what surrounds it.
#[derive(Debug, PartialEq, Eq)]
pub struct AsyncBlock {
    pub body: FlowBody,
}

/// A block that runs its statements strictly in order inside an
/// asynchronous block.
#[derive(Debug, PartialEq, Eq)]
pub struct SyncBlock {
    pub body: FlowBody,
}

/// A conditional: the body runs when the condition holds. There is no
/// else branch.
#[derive(Debug, PartialEq, Eq)]
pub struct If {
    pub condition: ConditionExpr,
    pub body: FlowBody,
}

/// A sequence of statements, in the order in which they were written and
/// in which they run.
#[derive(Debug, PartialEq, Eq)]
pub struct FlowBody {
    pub stmts: Vec<Stmt>,
}

/// A return of a call's result. No grammar of this crate produces it: the
/// node is reserved.
#[derive(Debug, PartialEq, Eq)]
pub struct Return {
    pub call: Call,
}

/// All kinds of statements.
#[derive(Debug, PartialEq, Eq)]
pub enum Stmt {
    CallStmt(Call),
    AsyncBlockStmt(AsyncBlock),
    SyncBlockStmt(SyncBlock),
    IfStmt(If),
    /// A nested scope that runs unconditionally. No grammar of this crate
    /// produces it.
    FlowBodyStmt(FlowBody),
    ReturnStmt(Return),
}

/// The condition of an `if` statement.
#[derive(Debug, PartialEq, Eq)]
pub enum ConditionExpr {
    Or { left: Box<ConditionExpr>, right: Box<ConditionExpr> },
    And { left: Box<ConditionExpr>, right: Box<ConditionExpr> },
    Eq { left: Box<ConditionExpr>, right: Box<ConditionExpr> },
    Neq { left: Box<ConditionExpr>, right: Box<ConditionExpr> },
    Not { expr: Box<ConditionExpr> },
    CallExpr(Call),
}

/// The value of a [`Call`].
pub ghost struct CallView {
    pub name: Seq<char>,
    pub args: Option<Seq<CallView>>,
}

/// The value of a [`ConditionExpr`].
pub ghost enum ConditionView {
    Or { left: Box<ConditionView>, right: Box<ConditionView> },
    And { left: Box<ConditionView>, right: Box<ConditionView> },
    Eq { left: Box<ConditionView>, right: Box<ConditionView> },
    Neq { left: Box<ConditionView>, right: Box<ConditionView> },
    Not { expr: Box<ConditionView> },
    CallExpr(CallView),
}

/// The value of an [`If`].
pub ghost struct IfView {
    pub condition: ConditionView,
    pub body: Seq<StmtView>,
}

/// The value of a [`Stmt`]. A block's value is the sequence of its
/// statements' values.
pub ghost enum StmtView {
    CallStmt(CallView),
    AsyncBlockStmt(Seq<StmtView>),
    SyncBlockStmt(Seq<StmtView>),
    IfStmt(IfView),
    FlowBodyStmt(Seq<StmtView>),
    ReturnStmt(CallView),
}

/// The value of a call.
pub open spec fn call_view(c: Call) -> CallView
    decreases c,
{
    CallView {
        name: c.name@,
        args: match c.args {
            Some(v) => Some(
                Seq::new(
                    v.len() as nat,
                    |i: int|
                        if 0 <= i < v.len() {
                            call_view(v[i])
                        } else {
                            arbitrary()
                        },
                ),
            ),
            None => None,
        },
    }
}

/// The values of a sequence of calls.
pub open spec fn calls_view(v: Seq<Call>) -> Seq<CallView> {
    Seq::new(v.len(), |i: int| call_view(v[i]))
}

/// The value of a condition.
pub open spec fn condition_view(e: ConditionExpr) -> ConditionView
    decreases e,
{
    match e {
        ConditionExpr::Or { left, right } => ConditionView::Or {
            left: Box::new(condition_view(*left)),
            right: Box::new(condition_view(*right)),
        },
        ConditionExpr::And { left, right } => ConditionView::And {
            left: Box::new(condition_view(*left)),
            right: Box::new(condition_view(*right)),
        },
        ConditionExpr::Eq { left, right } => ConditionView::Eq {
            left: Box::new(condition_view(*left)),
            right: Box::new(condition_view(*right)),
        },
        ConditionExpr::Neq { left, right } => ConditionView::Neq {
            left: Box::new(condition_view(*left)),
            right: Box::new(condition_view(*right)),
        },
        ConditionExpr::Not { expr } => ConditionView::Not {
            expr: Box::new(condition_view(*expr)),
        },
        ConditionExpr::CallExpr(c) => ConditionView::CallExpr(call_view(c)),
    }
}

/// The value of a statement.
pub open spec fn stmt_view(s: Stmt) -> StmtView
    decreases s,
{
    match s {
        Stmt::CallStmt(c) => StmtView::CallStmt(call_view(c)),
        Stmt::AsyncBlockStmt(b) => StmtView::AsyncBlockStmt(block_view(b.body.stmts)),
        Stmt::SyncBlockStmt(b) => StmtView::SyncBlockStmt(block_view(b.body.stmts)),
        Stmt::IfStmt(i) => StmtView::IfStmt(
            IfView { condition: condition_view(i.condition), body: block_view(i.body.stmts) },
        ),
        Stmt::FlowBodyStmt(b) => StmtView::FlowBodyStmt(block_view(b.stmts)),
        Stmt::ReturnStmt(r) => StmtView::ReturnStmt(call_view(r.call)),
    }
}

/// The values of a block's statements, in order.
pub open spec fn block_view(v: Vec<Stmt>) -> Seq<StmtView>
    decreases v,
{
    Seq::new(
        v.len() as nat,
        |i: int|
            if 0 <= i < v.len() {
                stmt_view(v[i])
            } else {
                arbitrary()
            },
    )
}

/// Whether every call of the tree has a name: no name is empty.
pub open spec fn call_named(c: CallView) -> bool
    decreases c,
{
    &&& c.name.len() > 0
    &&& match c.args {
        Some(args) => forall|i: int| 0 <= i < args.len() ==> call_named(#[trigger] args[i]),
        None => true,
    }
}

/// Whether every call of the condition has a name.
pub open spec fn condition_named(e: ConditionView) -> bool
    decreases e,
{
    match e {
        ConditionView::Or { left, right } => condition_named(*left) && condition_named(*right),
        ConditionView::And { left, right } => condition_named(*left) && condition_named(*right),
        ConditionView::Eq { left, right } => condition_named(*left) && condition_named(*right),
        ConditionView::Neq { left, right } => condition_named(*left) && condition_named(*right),
        ConditionView::Not { expr } => condition_named(*expr),
        ConditionView::CallExpr(c) => call_named(c),
    }
}

/// Whether every call of the statement has a name.
pub open spec fn stmt_named(s: StmtView) -> bool
    decreases s,
{
    match s {
        StmtView::CallStmt(c) => call_named(c),
        StmtView::AsyncBlockStmt(body) => forall|i: int|
            0 <= i < body.len() ==> stmt_named(#[trigger] body[i]),
        StmtView::SyncBlockStmt(body) => forall|i: int|
            0 <= i < body.len() ==> stmt_named(#[trigger] body[i]),
        StmtView::IfStmt(v) => condition_named(v.condition) && forall|i: int|
            0 <= i < v.body.len() ==> stmt_named(#[trigger] v.body[i]),
        StmtView::FlowBodyStmt(body) => forall|i: int|
            0 <= i < body.len() ==> stmt_named(#[trigger] body[i]),
        StmtView::ReturnStmt(c) => call_named(c),
    }
}

/// Whether every call of the flow body has a name.
pub open spec fn body_named(body: Seq<StmtView>) -> bool {
    forall|i: int| 0 <= i < body.len() ==> stmt_named(#[trigger] body[i])
}

impl View for Call {
    type V = CallView;

    open spec fn view(&self) -> CallView {
        call_view(*self)
    }
}

impl View for ConditionExpr {
    type V = ConditionView;

    open spec fn view(&self) -> ConditionView {
        condition_view(*self)
    }
}

impl View for Stmt {
    type V = StmtView;

    open spec fn view(&self) -> StmtView {
        stmt_view(*self)
    }
}

impl View for FlowBody {
    type V = Seq<StmtView>;

    open spec fn view(&self) -> Seq<StmtView> {
        block_view(self.stmts)
    }
}

impl View for AsyncBlock {
    type V = Seq<StmtView>;

    open spec fn view(&self) -> Seq<StmtView> {
        block_view(self.body.stmts)
    }
}

impl View for SyncBlock {
    type V = Seq<StmtView>;

    open spec fn view(&self) -> Seq<StmtView> {
        block_view(self.body.stmts)
    }
}

impl View for If {
    type V = IfView;

    open spec fn view(&self) -> IfView {
        IfView { condition: condition_view(self.condition), body: block_view(self.body.stmts) }
    }
}

impl View for Return {
    type V = CallView;

    open spec fn view(&self) -> CallView {
        call_view(self.call)
    }
}

impl Into<Stmt> for Call {
    fn into(self) -> (r: Stmt) {
        Stmt::CallStmt(self)
    }
}

impl IntoSpecImpl<Stmt> for Call {
    open spec fn obeys_into_spec() -> bool {
        true
    }

    open spec fn into_spec(self) -> Stmt {
        Stmt::CallStmt(self)
    }
}

impl Into<Stmt> for AsyncBlock {
    fn into(self) -> (r: Stmt) {
        Stmt::AsyncBlockStmt(self)
    }
}

impl IntoSpecImpl<Stmt> for AsyncBlock {
    open spec fn obeys_into_spec() -> bool {
        true
    }

    open spec fn into_spec(self) -> Stmt {
        Stmt::AsyncBlockStmt(self)
    }
}

impl Into<Stmt> for SyncBlock {
    fn into(self) -> (r: Stmt) {
        Stmt::SyncBlockStmt(self)
    }
}

impl IntoSpecImpl<Stmt> for SyncBlock {
    open spec fn obeys_into_spec() -> bool {
        true
    }

    open spec fn into_spec(self) -> Stmt {
        Stmt::SyncBlockStmt(self)
    }
}

impl Into<Stmt> for If {
    fn into(self) -> (r: Stmt) {
        Stmt::IfStmt(self)
    }
}

impl IntoSpecImpl<Stmt> for If {
    open spec fn obeys_into_spec() -> bool {
        true
    }

    open spec fn into_spec(self) -> Stmt {
        Stmt::IfStmt(self)
    }
}

} // verus!
