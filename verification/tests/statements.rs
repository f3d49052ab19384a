use haruhi_macro::ast::{AsyncBlock, Call, ConditionExpr, FlowBody, If, Stmt, SyncBlock};
use haruhi_macro::diagnostic::{Entry, Problem};
use haruhi_macro::token::{Delim, Span, Token};
use proc_macro2::{Delimiter, Spacing, TokenStream, TokenTree};

/// Numbers the token trees of `stream` in reading order, a group before its
/// content: the token numbered `k` gets the span `k..k + 1`.
fn lower(stream: TokenStream, next: &mut usize) -> Vec<Token> {
    let mut out = Vec::new();
    for tree in stream {
        let span = Span { start: *next, end: *next + 1 };
        *next += 1;
        match tree {
            TokenTree::Ident(word) => out.push(Token::Ident { text: word.to_string(), span }),
            TokenTree::Literal(lit) => out.push(Token::Literal { text: lit.to_string(), span }),
            TokenTree::Punct(p) => out.push(Token::Punct {
                ch: p.as_char(),
                joint: p.spacing() == Spacing::Joint,
                span,
            }),
            TokenTree::Group(group) => {
                let inner = lower(group.stream(), next);
                let delim = match group.delimiter() {
                    Delimiter::Parenthesis => Delim::Paren,
                    Delimiter::Brace => Delim::Brace,
                    Delimiter::Bracket => Delim::Bracket,
                    Delimiter::None => panic!("a group without brackets"),
                };
                out.push(Token::Group { delim, inner, span });
            }
        }
    }
    out
}

fn lex(text: &str) -> Vec<Token> {
    lower(text.parse().unwrap(), &mut 0)
}

fn whole() -> Span {
    Span { start: 1000, end: 1001 }
}

fn at(k: usize, problem: Problem) -> Entry {
    Entry { span: Span { start: k, end: k + 1 }, problem }
}

fn bare(name: &str) -> Call {
    Call { name: name.to_string(), args: None }
}

fn operand(name: &str) -> Box<ConditionExpr> {
    Box::new(ConditionExpr::CallExpr(bare(name)))
}

fn condition(text: &str) -> Result<(ConditionExpr, usize), (Vec<Entry>, usize)> {
    ConditionExpr::parse(&lex(text), 0, whole()).map_err(|h| (h.diagnostic.entries, h.stop))
}

fn body(text: &str) -> Result<FlowBody, Vec<Entry>> {
    FlowBody::parse(&lex(text), 0, whole()).map_err(|d| d.entries)
}

#[test]
fn call_without_parentheses_has_no_argument_list() {
    let (call, end) = Call::parse(&lex("fetch"), 0, whole()).unwrap();
    assert_eq!(call, bare("fetch"));
    assert_eq!(end, 1);
}

#[test]
fn call_with_empty_parentheses_has_an_empty_argument_list() {
    let (call, end) = Call::parse(&lex("fetch()"), 0, whole()).unwrap();
    assert_eq!(call, Call { name: "fetch".to_string(), args: Some(vec![]) });
    assert_eq!(end, 2);
}

#[test]
fn call_arguments_nest_and_keep_their_order() {
    let (call, _) = Call::parse(&lex("f(a, g(b, c), d,)"), 0, whole()).unwrap();
    let g = Call { name: "g".to_string(), args: Some(vec![bare("b"), bare("c")]) };
    assert_eq!(call, Call { name: "f".to_string(), args: Some(vec![bare("a"), g, bare("d")]) });
}

#[test]
fn call_name_must_not_be_a_keyword() {
    let halt = Call::parse(&lex("fn"), 0, whole()).unwrap_err();
    assert_eq!(halt.diagnostic.entries, vec![at(0, Problem::ExpectedIdent)]);
    assert_eq!(halt.stop, 0);
}

#[test]
fn call_arguments_need_commas() {
    let halt = Call::parse(&lex("f(a b)"), 0, whole()).unwrap_err();
    assert_eq!(halt.diagnostic.entries, vec![at(3, Problem::ExpectedComma)]);
    assert_eq!(halt.stop, 2);
}

#[test]
fn call_at_the_end_of_input_points_at_the_scope() {
    let halt = Call::parse(&lex(""), 0, whole()).unwrap_err();
    assert_eq!(halt.diagnostic.entries, vec![Entry { span: whole(), problem: Problem::ExpectedIdent }]);
}

#[test]
fn each_operator_gives_its_own_node() {
    let (or, end) = condition("a || b").unwrap();
    assert_eq!(or, ConditionExpr::Or { left: operand("a"), right: operand("b") });
    assert_eq!(end, 4);
    let (and, _) = condition("a && b").unwrap();
    assert_eq!(and, ConditionExpr::And { left: operand("a"), right: operand("b") });
    let (eq, _) = condition("a == b").unwrap();
    assert_eq!(eq, ConditionExpr::Eq { left: operand("a"), right: operand("b") });
    let (neq, _) = condition("a != b").unwrap();
    assert_eq!(neq, ConditionExpr::Neq { left: operand("a"), right: operand("b") });
}

#[test]
fn parentheses_build_deeper_conditions() {
    let (expr, end) = condition("(a && b) || c").unwrap();
    let inner = ConditionExpr::And { left: operand("a"), right: operand("b") };
    assert_eq!(expr, ConditionExpr::Or { left: Box::new(inner), right: operand("c") });
    assert_eq!(end, 4);
}

#[test]
fn operands_may_be_calls_with_arguments() {
    let (expr, end) = condition("ready(x) == done()").unwrap();
    let left = Call { name: "ready".to_string(), args: Some(vec![bare("x")]) };
    let right = Call { name: "done".to_string(), args: Some(vec![]) };
    assert_eq!(
        expr,
        ConditionExpr::Eq {
            left: Box::new(ConditionExpr::CallExpr(left)),
            right: Box::new(ConditionExpr::CallExpr(right)),
        }
    );
    assert_eq!(end, 6);
}

#[test]
fn lone_operand_is_no_condition() {
    let (entries, stop) = condition("a b").unwrap_err();
    assert_eq!(entries, vec![at(1, Problem::ExpectedOperator)]);
    assert_eq!(stop, 1);
    let (entries, _) = condition("a").unwrap_err();
    assert_eq!(entries, vec![Entry { span: whole(), problem: Problem::ExpectedOperator }]);
}

#[test]
fn chained_operators_fail_behind_the_second_operand() {
    let (entries, stop) = condition("a && b && c").unwrap_err();
    assert_eq!(entries, vec![at(4, Problem::ExpectedOperator)]);
    assert_eq!(stop, 6);
    let (entries, _) = condition("a == b() || c").unwrap_err();
    assert_eq!(entries, vec![at(5, Problem::ExpectedOperator)]);
    let (entries, _) = condition("(a && b && c) || d").unwrap_err();
    assert_eq!(entries, vec![at(5, Problem::ExpectedOperator)]);
    assert_eq!(body("if a && b && c run()").unwrap_err(), vec![at(5, Problem::ExpectedOperator)]);
    assert_eq!(
        Problem::ExpectedOperator.message(),
        "expected exactly one of: `||`, `&&`, `==`, `!=`"
    );
}

#[test]
fn tokens_behind_a_parenthesized_condition_are_unexpected() {
    let (entries, stop) = condition("(a && b c) || d").unwrap_err();
    assert_eq!(entries, vec![at(5, Problem::UnexpectedToken)]);
    assert_eq!(stop, 1);
}

#[test]
fn negation_takes_the_whole_condition_behind_it() {
    let (expr, end) = condition("!a && b").unwrap();
    let inner = ConditionExpr::And { left: operand("a"), right: operand("b") };
    assert_eq!(expr, ConditionExpr::Not { expr: Box::new(inner) });
    assert_eq!(end, 5);
}

#[test]
fn negated_group_still_needs_an_operator() {
    let (entries, stop) = condition("!(a && b)").unwrap_err();
    assert_eq!(entries, vec![Entry { span: whole(), problem: Problem::ExpectedOperator }]);
    assert_eq!(stop, 2);
    let (expr, _) = condition("!(a && b) || c").unwrap();
    let group = ConditionExpr::And { left: operand("a"), right: operand("b") };
    let or = ConditionExpr::Or { left: Box::new(group), right: operand("c") };
    assert_eq!(expr, ConditionExpr::Not { expr: Box::new(or) });
    let (expr, _) = condition("(!(a && b) || c) == d").unwrap();
    assert!(matches!(expr, ConditionExpr::Eq { .. }));
}

#[test]
fn double_negation_nests() {
    let (expr, _) = condition("!!a == b").unwrap();
    let eq = ConditionExpr::Eq { left: operand("a"), right: operand("b") };
    let once = ConditionExpr::Not { expr: Box::new(eq) };
    assert_eq!(expr, ConditionExpr::Not { expr: Box::new(once) });
}

#[test]
fn statements_come_out_in_source_order() {
    let parsed = body("first() second third(x)").unwrap();
    let names: Vec<String> = parsed
        .stmts
        .iter()
        .map(|s| match s {
            Stmt::CallStmt(c) => c.name.clone(),
            _ => panic!("a call was expected"),
        })
        .collect();
    assert_eq!(names, vec!["first", "second", "third"]);
}

#[test]
fn empty_body_is_an_empty_sequence() {
    assert_eq!(body("").unwrap(), FlowBody { stmts: vec![] });
}

#[test]
fn compound_statements_take_the_rest_of_the_tokens() {
    let parsed = body("start() async load() sync a() b() ").unwrap();
    assert_eq!(parsed.stmts.len(), 2);
    match &parsed.stmts[1] {
        Stmt::AsyncBlockStmt(block) => {
            assert_eq!(block.body.stmts.len(), 2);
            match &block.body.stmts[1] {
                Stmt::SyncBlockStmt(inner) => assert_eq!(inner.body.stmts.len(), 2),
                _ => panic!("a sync block was expected"),
            }
        }
        _ => panic!("an async block was expected"),
    }
}

#[test]
fn if_statement_holds_its_condition_and_body() {
    let parsed = body("if ok == yes run() stop()").unwrap();
    assert_eq!(parsed.stmts.len(), 1);
    match &parsed.stmts[0] {
        Stmt::IfStmt(branch) => {
            assert_eq!(
                branch.condition,
                ConditionExpr::Eq { left: operand("ok"), right: operand("yes") }
            );
            assert_eq!(
                branch.body.stmts,
                vec![
                    Stmt::CallStmt(Call { name: "run".to_string(), args: Some(vec![]) }),
                    Stmt::CallStmt(Call { name: "stop".to_string(), args: Some(vec![]) }),
                ]
            );
        }
        _ => panic!("an if statement was expected"),
    }
}

#[test]
fn two_invalid_statements_give_one_diagnostic_with_both_locations() {
    let entries = body("a(b c) ok() d(e f)").unwrap_err();
    assert_eq!(entries, vec![at(3, Problem::ExpectedComma), at(9, Problem::ExpectedComma)]);
}

#[test]
fn scan_goes_on_behind_a_keyword_that_opens_no_statement() {
    let entries = body("fn a(b c)").unwrap_err();
    assert_eq!(entries, vec![at(0, Problem::ExpectedIdent), at(4, Problem::ExpectedComma)]);
}

#[test]
fn scan_resumes_where_the_condition_was_given_up() {
    let entries = body("if a b() c(d e)").unwrap_err();
    assert_eq!(entries, vec![at(2, Problem::ExpectedOperator), at(7, Problem::ExpectedComma)]);
}

#[test]
fn token_that_is_no_word_ends_the_scan() {
    let entries = body("a(b c) 5 d(e f)").unwrap_err();
    assert_eq!(entries, vec![at(3, Problem::ExpectedComma), at(4, Problem::ExpectedIdent)]);
}

#[test]
fn block_grammar_rejects_a_foreign_keyword_fatally() {
    let tokens = lex("loop a()");
    let halt = If::parse(&tokens, 0, whole()).unwrap_err();
    assert_eq!(halt.diagnostic.entries, vec![at(0, Problem::NotIf)]);
    assert!(halt.diagnostic.is_fatal());
    let halt = AsyncBlock::parse(&tokens, 0, whole()).unwrap_err();
    assert_eq!(halt.diagnostic.entries, vec![at(0, Problem::NotAsync)]);
    let halt = SyncBlock::parse(&tokens, 0, whole()).unwrap_err();
    assert_eq!(halt.diagnostic.entries, vec![at(0, Problem::NotSync)]);
    assert_eq!(Problem::NotSync.message(), "Not an `sync` block");
}

#[test]
fn sub_grammars_convert_into_statements() {
    let stmt: Stmt = bare("a").into();
    assert_eq!(stmt, Stmt::CallStmt(bare("a")));
}

#[test]
fn call_name_is_never_empty() {
    let tokens = vec![Token::Ident { text: String::new(), span: Span { start: 0, end: 1 } }];
    let halt = Call::parse(&tokens, 0, whole()).unwrap_err();
    assert_eq!(halt.diagnostic.entries, vec![at(0, Problem::ExpectedIdent)]);
}

#[test]
fn position_behind_the_tokens_holds_nothing() {
    let tokens = lex("a");
    assert_eq!(Call::parse(&tokens, 5, whole()).unwrap_err().stop, 5);
    assert_eq!(FlowBody::parse(&tokens, 5, whole()), Ok(FlowBody { stmts: vec![] }));
    assert!(condition("").is_err());
}
