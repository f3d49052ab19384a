use haruhi_macro::ast::Stmt;
use haruhi_macro::diagnostic::{Diagnostic, Entry, Problem};
use haruhi_macro::process::{Argument, Process, Processes};
use haruhi_macro::rust_syntax::{end_of, find_type_end, find_visibility_end, is_plain_ident};
use haruhi_macro::token::{render, Delim, Span, Token};
use proc_macro2::{Delimiter, Spacing, TokenStream, TokenTree};

/// Numbers the token trees of `stream` in reading order, a group before its
/// content: the token numbered `k` gets the span `k..k + 1`.
fn lower(stream: TokenStream, next: &mut usize) -> Vec<Token> {
    let mut out = Vec::new();
    for tree in stream {
        let span = Span { start: *next, end: *next + 1 };
        *next += 1;
        match tree {
            TokenTree::Ident(word) => out.push(Token::Ident { text: word.to_string(), span }),
            TokenTree::Literal(lit) => out.push(Token::Literal { text: lit.to_string(), span }),
            TokenTree::Punct(p) => out.push(Token::Punct {
                ch: p.as_char(),
                joint: p.spacing() == Spacing::Joint,
                span,
            }),
            TokenTree::Group(group) => {
                let inner = lower(group.stream(), next);
                let delim = match group.delimiter() {
                    Delimiter::Parenthesis => Delim::Paren,
                    Delimiter::Brace => Delim::Brace,
                    Delimiter::Bracket => Delim::Bracket,
                    Delimiter::None => panic!("a group without brackets"),
                };
                out.push(Token::Group { delim, inner, span });
            }
        }
    }
    out
}

fn lex(text: &str) -> Vec<Token> {
    lower(text.parse().unwrap(), &mut 0)
}

fn whole() -> Span {
    Span { start: 1000, end: 1001 }
}

fn at(k: usize, problem: Problem) -> Entry {
    Entry { span: Span { start: k, end: k + 1 }, problem }
}

fn batch(text: &str) -> Result<Vec<Process>, Vec<Entry>> {
    Processes::parse(&lex(text), whole()).map(|found| found.0).map_err(|d| d.entries)
}

fn call_names(process: &Process) -> Vec<String> {
    process
        .body
        .stmts
        .iter()
        .map(|s| match s {
            Stmt::CallStmt(c) => c.name.clone(),
            _ => panic!("a call was expected"),
        })
        .collect()
}

#[test]
fn empty_batch_has_no_declaration() {
    assert_eq!(batch("").unwrap(), vec![]);
}

#[test]
fn batch_gives_one_declaration_for_each_written() {
    let found = batch(
        "pub fetch(Request), retries: u8, timeout: Duration -> Response { load() store(x) }
         check(Input) -> bool { }
         pub(crate) last(()) -> () { done }",
    )
    .unwrap();
    assert_eq!(found.len(), 3);
    let names: Vec<&str> = found.iter().map(|p| p.name.as_str()).collect();
    assert_eq!(names, vec!["fetch", "check", "last"]);
}

#[test]
fn declaration_keeps_every_part_of_its_signature() {
    let found = batch(
        "pub fetch(Request), retries: u8, timeout: Duration -> Response { load() store(x) }",
    )
    .unwrap();
    let fetch = &found[0];
    assert_eq!(fetch.visibility, "pub ");
    assert_eq!(fetch.name, "fetch");
    assert_eq!(fetch.input_ty, "Request ");
    assert_eq!(
        fetch.args,
        Some(vec![
            Argument {
                attrs: "".to_string(),
                name: "retries".to_string(),
                ty: "u8 ".to_string(),
            },
            Argument {
                attrs: "".to_string(),
                name: "timeout".to_string(),
                ty: "Duration ".to_string(),
            },
        ])
    );
    assert_eq!(fetch.result_ty, "Response ");
    assert_eq!(call_names(fetch), vec!["load", "store"]);
}

#[test]
fn declaration_without_arguments_has_no_argument_list() {
    let found = batch("check(Input) -> bool { }").unwrap();
    assert_eq!(found[0].visibility, "");
    assert_eq!(found[0].args, None);
    assert!(found[0].body.stmts.is_empty());
    assert!(found[0].body.expand().is_empty());
}

#[test]
fn types_may_hold_commas_and_arrows() {
    let found = batch(
        "pub(crate) run(Vec<u8>), table: Map<K, V>, then: fn(u8) -> u8 -> Result<(), Error> { go }",
    )
    .unwrap();
    let run = &found[0];
    assert_eq!(run.visibility, "pub (crate ) ");
    assert_eq!(run.input_ty, "Vec < u8 > ");
    let args = run.args.as_ref().unwrap();
    assert_eq!(args.len(), 2);
    assert_eq!(args[0].ty, "Map < K , V >");
    assert_eq!(args[1].name, "then");
    assert_eq!(args[1].ty, "fn (u8 ) -> u8 ");
    assert_eq!(run.result_ty, "Result < () , Error > ");
}

#[test]
fn unnamed_argument_is_fatal_and_reported_alone() {
    let entries = batch("proc(In), x: Foo, Bar -> Out { a(b c) }").unwrap_err();
    assert_eq!(entries, vec![at(8, Problem::MissingArgumentName)]);
    assert!(Problem::MissingArgumentName.is_fatal());
    assert_eq!(Problem::MissingArgumentName.message(), "Expected name for this argument");
}

#[test]
fn unnamed_argument_drops_what_was_gathered_before() {
    let text = "first(In) -> Out { a(b c) } proc(In), x: Foo, Bar -> Out { } last(In) -> Out { d(e f) }";
    let failed = Processes::parse(&lex(text), whole()).unwrap_err();
    assert!(failed.is_fatal());
    assert_eq!(failed.len(), 1);
    assert_eq!(failed.entries[0].problem, Problem::MissingArgumentName);
    assert_eq!(failed.entries[0].span, Span { start: 19, end: 20 });
}

#[test]
fn arguments_inside_the_parentheses_are_no_input_type() {
    let entries = batch("proc(x: Foo, Bar) -> Out { }").unwrap_err();
    assert_eq!(entries, vec![at(3, Problem::UnexpectedToken)]);
}

#[test]
fn argument_is_split_at_its_name() {
    let tokens = lex("#[a] /// b\n x: Vec<u8>, y");
    let arg = Argument::split(&tokens, 0, 10, "x".to_string()).unwrap();
    assert_eq!(arg.attrs, "# [a ] # [doc = \" b\" ] ");
    assert_eq!(arg.name, "x");
    assert_eq!(arg.ty, "Vec < u8 >");
    assert_eq!(Argument::split(&tokens, 0, 10, "z".to_string()), None);
    assert_eq!(Argument::split(&tokens, 0, 6, "x".to_string()), None);
    assert_eq!(Argument::split(&tokens, 11, 12, "y".to_string()), None);
    let found = batch("run(In), #[late] count: usize -> Out { }").unwrap();
    assert_eq!(
        found[0].args,
        Some(vec![Argument {
            attrs: "# [late ] ".to_string(),
            name: "count".to_string(),
            ty: "usize ".to_string(),
        }])
    );
}

#[test]
fn argument_name_decides_by_what_was_found() {
    let span = Span { start: 7, end: 9 };
    assert_eq!(Argument::named(span, Some("x".to_string())), Ok("x".to_string()));
    let failed = Argument::named(span, None).unwrap_err();
    assert_eq!(failed.entries, vec![Entry { span, problem: Problem::MissingArgumentName }]);
}

#[test]
fn failed_bodies_of_a_batch_give_one_diagnostic() {
    let entries = batch("a(In) -> Out { x(y z) } b(In) -> Out { ok } c(In) -> Out { p(q r) 7 }")
        .unwrap_err();
    assert_eq!(
        entries,
        vec![
            at(10, Problem::ExpectedComma),
            at(29, Problem::ExpectedComma),
            at(30, Problem::ExpectedIdent),
        ]
    );
}

#[test]
fn malformed_signature_ends_the_scan() {
    let entries =
        batch("a(In) -> Out { x(y z) } b In -> Out { } c(In) -> Out { p(q r) }").unwrap_err();
    assert_eq!(entries, vec![at(10, Problem::ExpectedComma), at(12, Problem::ExpectedParens)]);
}

#[test]
fn token_that_is_no_word_cannot_open_a_declaration() {
    let entries = batch("a(In) -> Out { } 5").unwrap_err();
    assert_eq!(entries, vec![at(7, Problem::UnexpectedToken)]);
}

#[test]
fn each_part_of_a_signature_is_asked_for() {
    assert_eq!(batch("pub fn(In) -> Out { }").unwrap_err(), vec![at(1, Problem::ExpectedIdent)]);
    assert_eq!(batch("a() -> Out { }").unwrap_err(), vec![at(1, Problem::ExpectedType)]);
    assert_eq!(batch("a(In) Out { }").unwrap_err(), vec![at(3, Problem::ExpectedArrow)]);
    assert_eq!(batch("a(In) -> { }").unwrap_err(), vec![at(5, Problem::ExpectedType)]);
    assert_eq!(batch("a(In) -> Out b").unwrap_err(), vec![at(6, Problem::ExpectedBraces)]);
    assert_eq!(batch("a(In), -> Out { }").unwrap_err(), vec![at(4, Problem::ExpectedArgument)]);
    assert_eq!(
        batch("a(In) -> Out").unwrap_err(),
        vec![Entry { span: whole(), problem: Problem::ExpectedBraces }]
    );
}

#[test]
fn single_declaration_reports_where_the_scan_may_go_on() {
    let tokens = lex("a(In) -> Out { x(y z) } b(In) -> Out { }");
    let halt = Process::parse(&tokens, 0, whole()).unwrap_err();
    assert_eq!(halt.stop, 6);
    let (b, end) = Process::parse(&tokens, 6, whole()).unwrap();
    assert_eq!(b.name, "b");
    assert_eq!(end, tokens.len());
}

#[test]
fn merging_concatenates_in_order() {
    let mut first = Diagnostic::single(Span { start: 1, end: 2 }, Problem::ExpectedComma);
    let mut second = Diagnostic::single(Span { start: 3, end: 4 }, Problem::ExpectedIdent);
    second.combine(Diagnostic::single(Span { start: 5, end: 6 }, Problem::ExpectedOperator));
    first.combine(second);
    assert_eq!(
        first.entries,
        vec![
            at(1, Problem::ExpectedComma),
            at(3, Problem::ExpectedIdent),
            at(5, Problem::ExpectedOperator),
        ]
    );
    assert!(!first.is_fatal());
    assert_eq!(first.len(), 3);
}

#[test]
fn tokens_render_as_source_text() {
    let tokens = lex("a::b(c, 'x') -> [u8; 2] { d && e }");
    assert_eq!(render(&tokens, 0, tokens.len()), "a :: b (c , 'x' ) -> [u8 ; 2 ] {d && e } ");
    assert_eq!(render(&tokens, 1, 3), ":: ");
    assert_eq!(render(&tokens, 2, 2), "");
    assert_eq!(Delim::Brace.open(), '{');
    assert_eq!(Delim::Bracket.close(), ']');
}

#[test]
fn plain_identifiers_are_words_that_are_no_keywords() {
    assert!(is_plain_ident(&"fetch".to_string()));
    assert!(is_plain_ident(&"sync".to_string()));
    assert!(!is_plain_ident(&"match".to_string()));
    assert!(!is_plain_ident(&"if".to_string()));
    assert!(!is_plain_ident(&"_".to_string()));
    assert!(!is_plain_ident(&"".to_string()));
    assert!(!is_plain_ident(&"a b".to_string()));
}

#[test]
fn type_and_visibility_end_where_the_rust_grammar_ends_them() {
    let tokens = lex("pub(crate) Vec<u8> -> x");
    assert_eq!(find_visibility_end(&tokens, 0), Some(2));
    assert_eq!(find_visibility_end(&tokens, 2), Some(2));
    assert_eq!(find_type_end(&tokens, 2), Some(6));
    assert_eq!(find_type_end(&tokens, 6), None);
    assert_eq!(find_type_end(&tokens, tokens.len()), None);
}

#[test]
fn unread_count_becomes_a_position() {
    assert_eq!(end_of(10, 4, Some(2)), Some(8));
    assert_eq!(end_of(10, 4, Some(6)), Some(4));
    assert_eq!(end_of(10, 4, Some(7)), None);
    assert_eq!(end_of(10, 4, None), None);
}

#[test]
fn malformed_visibility_is_asked_for() {
    assert_eq!(
        batch("pub(in 5) a(In) -> Out { }").unwrap_err(),
        vec![at(0, Problem::ExpectedVisibility)]
    );
}
