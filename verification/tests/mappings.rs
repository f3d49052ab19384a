use haruhi_macro::attribute::{is_doc, sort_attributes};
use haruhi_macro::diagnostic::{Entry, Problem};
use haruhi_macro::pattern::{pattern_fault, PatternFault};
use haruhi_macro::response;
use haruhi_macro::route;
use haruhi_macro::rust_syntax::{
    find_argument, find_attributes, find_path_end, is_integer_literal, string_literal_value,
};
use haruhi_macro::token::{Delim, Span, Token};
use proc_macro2::{Delimiter, Spacing, TokenStream, TokenTree};

/// Numbers the token trees of `stream` in reading order, a group before its
/// content: the token numbered `k` gets the span `k..k + 1`.
fn lower(stream: TokenStream, next: &mut usize) -> Vec<Token> {
    let mut out = Vec::new();
    for tree in stream {
        let span = Span { start: *next, end: *next + 1 };
        *next += 1;
        match tree {
            TokenTree::Ident(word) => out.push(Token::Ident { text: word.to_string(), span }),
            TokenTree::Literal(lit) => out.push(Token::Literal { text: lit.to_string(), span }),
            TokenTree::Punct(p) => out.push(Token::Punct {
                ch: p.as_char(),
                joint: p.spacing() == Spacing::Joint,
                span,
            }),
            TokenTree::Group(group) => {
                let inner = lower(group.stream(), next);
                let delim = match group.delimiter() {
                    Delimiter::Parenthesis => Delim::Paren,
                    Delimiter::Brace => Delim::Brace,
                    Delimiter::Bracket => Delim::Bracket,
                    Delimiter::None => panic!("a group without brackets"),
                };
                out.push(Token::Group { delim, inner, span });
            }
        }
    }
    out
}

fn lex(text: &str) -> Vec<Token> {
    lower(text.parse().unwrap(), &mut 0)
}

fn whole() -> Span {
    Span { start: 1000, end: 1001 }
}

fn at(k: usize, problem: Problem) -> Entry {
    Entry { span: Span { start: k, end: k + 1 }, problem }
}

fn responses(text: &str) -> (Result<response::Block, Vec<Entry>>, Vec<Entry>) {
    let mut notes = Vec::new();
    let parsed = response::Block::parse(&lex(text), whole(), &mut notes);
    (parsed.map_err(|d| d.entries), notes)
}

fn routes(text: &str) -> Result<route::Block, Vec<Entry>> {
    route::Block::parse(&lex(text), whole()).map_err(|d| d.entries)
}

const RESPONSES: &str = r#"
    pub match MyResponse1 {}

    /// DOC
    pub match MyResponse2 {
        404 => MyStruct1,
        200 => MyStruct2,
    }

    match MyResponse3 {
        /// DOC1
        /// DOC2
        200 => MyStruct1,

        /// DOC
        201 => MyStruct2
    }
"#;

const ROUTES: &str = r#"
    pub match RouteGroup1 {
        "/" => Procedure1,
        "/simple" => Procedure2,
        "/*/end" => Procedure3,
    }

    /// DOC
    match RouteGroup2 {
        "/" => Procedure1,

        /// Doc
        "/simple" => Procedure2,
        "/*/end" => Procedure3
    }
"#;

#[test]
fn main_test() {
    let (parsed, notes) = responses(RESPONSES);
    let block = parsed.unwrap();
    assert_eq!(block.0.len(), 3);
    assert!(notes.iter().all(|n| n.problem.is_advisory()));
    assert!(block.expand().is_empty());
    let block = routes(ROUTES).unwrap();
    assert_eq!(block.0.len(), 2);
    assert_eq!(block.check(), Ok(()));
    assert!(block.expand().is_empty());
}

#[test]
fn response_mappings_keep_entries_docs_and_order() {
    let (parsed, _) = responses(RESPONSES);
    let block = parsed.unwrap();
    let second = &block.0[1];
    assert_eq!(second.name, "MyResponse2");
    assert_eq!(second.visibility, "pub ");
    assert_eq!(second.attrs, vec!["# [doc = \" DOC\" ] "]);
    let codes: Vec<&str> = second.body.0.iter().map(|p| p.code.as_str()).collect();
    assert_eq!(codes, vec!["404", "200"]);
    assert_eq!(second.body.0[0].data_ty, "MyStruct1 ");
    let third = &block.0[2];
    assert_eq!(third.visibility, "");
    assert_eq!(
        third.body.0[0].doc,
        vec!["# [doc = \" DOC1\" ] ", "# [doc = \" DOC2\" ] "]
    );
    assert_eq!(third.body.0[1].code, "201");
    assert_eq!(third.body.0[1].doc.len(), 1);
}

#[test]
fn empty_response_mapping_succeeds_with_a_warning() {
    let (parsed, notes) = responses("pub match MyResponse1 {}");
    let block = parsed.unwrap();
    assert_eq!(block.0.len(), 1);
    assert!(block.0[0].body.0.is_empty());
    assert_eq!(notes, vec![at(2, Problem::EmptyMatch)]);
    assert!(Problem::EmptyMatch.is_advisory());
    assert!(!Problem::EmptyMatch.is_fatal());
    assert!(Problem::EmptyMatch.message().starts_with("Empty match is unusable."));
}

#[test]
fn response_mapping_with_entries_gives_no_warning() {
    let (parsed, notes) = responses("match R { 200 => A }");
    assert!(parsed.is_ok());
    assert_eq!(notes, vec![]);
}

#[test]
fn attribute_that_is_no_doc_comment_is_reported_and_dropped() {
    let (parsed, notes) = responses("match R { #[inline] /** d */ #[a::doc] 200 => A }");
    let block = parsed.unwrap();
    assert_eq!(block.0[0].body.0[0].doc, vec!["# [doc = \" d \" ] "]);
    assert_eq!(
        notes,
        vec![at(3, Problem::UnexpectedAttribute), at(11, Problem::UnexpectedAttribute)]
    );
    assert!(!Problem::UnexpectedAttribute.is_advisory());
}

#[test]
fn notes_are_kept_when_the_parse_fails_later() {
    let (parsed, notes) = responses("match R { #[inline] 200 => A, 404 B }");
    assert_eq!(parsed.unwrap_err(), vec![at(12, Problem::ExpectedFatArrow)]);
    assert_eq!(notes, vec![at(3, Problem::UnexpectedAttribute)]);
}

#[test]
fn response_block_must_begin_with_match() {
    let (parsed, notes) = responses("pub mach R { }");
    assert_eq!(parsed.unwrap_err(), vec![at(1, Problem::UnknownOperation)]);
    assert!(Problem::UnknownOperation.is_fatal());
    assert_eq!(notes, vec![]);
}

#[test]
fn each_part_of_a_response_entry_is_asked_for() {
    assert_eq!(responses("match R { \"a\" => A }").0.unwrap_err(), vec![at(3, Problem::ExpectedInteger)]);
    assert_eq!(responses("match R { 2.5 => A }").0.unwrap_err(), vec![at(3, Problem::ExpectedInteger)]);
    assert_eq!(responses("match R { 200 = A }").0.unwrap_err(), vec![at(4, Problem::ExpectedFatArrow)]);
    assert_eq!(responses("match R { 200 => 5 }").0.unwrap_err(), vec![at(6, Problem::ExpectedPath)]);
    assert_eq!(responses("match R { 200 => A 404 => B }").0.unwrap_err(), vec![at(7, Problem::ExpectedComma)]);
    assert_eq!(responses("match R 200").0.unwrap_err(), vec![at(2, Problem::ExpectedBraces)]);
    assert_eq!(responses("match 200 { }").0.unwrap_err(), vec![at(1, Problem::ExpectedIdent)]);
    assert_eq!(responses("#[5] match R { }").0.unwrap_err(), vec![at(0, Problem::ExpectedAttribute)]);
}

#[test]
fn route_mappings_keep_patterns_handlers_and_order() {
    let block = routes(ROUTES).unwrap();
    let first = &block.0[0];
    assert_eq!(first.name, "RouteGroup1");
    let patterns: Vec<&str> = first.pairs.iter().map(|p| p.path.as_str()).collect();
    assert_eq!(patterns, vec!["/", "/simple", "/*/end"]);
    assert_eq!(first.pairs[2].proc, "Procedure3 ");
    let second = &block.0[1];
    assert_eq!(second.attrs.len(), 1);
    assert_eq!(second.pairs[1].attrs, vec!["# [doc = \" Doc\" ] "]);
    assert_eq!(second.pairs[1].path, "/simple");
}

#[test]
fn malformed_pattern_is_reported_at_its_literal() {
    let block = routes("match RouteGroup3 { \"[[:ala:]\" => Procedure4, }").unwrap();
    let fault = block.check().unwrap_err();
    assert_eq!(fault.span, Span { start: 3, end: 4 });
    assert!(fault.reason.contains("regex parse error"));
    let reported = fault.diagnostic();
    assert_eq!(reported.entries, vec![at(3, Problem::MalformedPattern)]);
    assert!(reported.is_fatal());
}

#[test]
fn well_formed_pattern_passes_the_check() {
    let block = routes("match G { \"/*/end\" => Procedure3 }").unwrap();
    assert_eq!(block.check(), Ok(()));
    assert_eq!(pattern_fault(&"/*/end".to_string()), None);
    assert!(pattern_fault(&"[[:ala:]".to_string()).is_some());
}

#[test]
fn check_stops_at_the_first_malformed_pattern() {
    let block = routes("match A { \"/\" => P, \"(\" => Q } match B { \"[\" => R }").unwrap();
    let fault = block.check().unwrap_err();
    assert_eq!(fault.span, Span { start: 8, end: 9 });
    assert_eq!(block.0[0].check().unwrap_err().span, Span { start: 8, end: 9 });
    assert!(block.0[1].check().is_err());
}

#[test]
fn pattern_is_judged_by_what_compiling_answered() {
    let span = Span { start: 4, end: 6 };
    assert_eq!(PatternFault::judge(span, None), Ok(()));
    assert_eq!(
        PatternFault::judge(span, Some("unclosed".to_string())),
        Err(PatternFault { span, reason: "unclosed".to_string() })
    );
}

#[test]
fn pattern_is_the_string_that_the_literal_denotes() {
    let block = routes("match G { \"/a\\\\d\" => P, r\"/b\\d\" => Q }").unwrap();
    assert_eq!(block.0[0].pairs[0].path, "/a\\d");
    assert_eq!(block.0[0].pairs[1].path, "/b\\d");
    assert_eq!(string_literal_value(&"\"x\\ny\"".to_string()), Some("x\ny".to_string()));
    assert_eq!(string_literal_value(&"12".to_string()), None);
}

#[test]
fn route_keyword_is_asked_for_without_ending_everything() {
    assert_eq!(routes("pub mach R { }").unwrap_err(), vec![at(1, Problem::ExpectedMatch)]);
    assert!(!Problem::ExpectedMatch.is_fatal());
}

#[test]
fn each_part_of_a_route_entry_is_asked_for() {
    assert_eq!(routes("match R { 200 => A }").unwrap_err(), vec![at(3, Problem::ExpectedString)]);
    assert_eq!(routes("match R { \"/\" A }").unwrap_err(), vec![at(4, Problem::ExpectedFatArrow)]);
    assert_eq!(routes("match R { \"/\" => }").unwrap_err(), vec![at(2, Problem::ExpectedPath)]);
    assert_eq!(routes("match R { \"/\" => A \"/b\" => B }").unwrap_err(), vec![at(7, Problem::ExpectedComma)]);
    assert_eq!(routes("match R").unwrap_err(), vec![Entry { span: whole(), problem: Problem::ExpectedBraces }]);
}

#[test]
fn doc_comments_are_attributes_whose_path_is_doc() {
    assert!(is_doc(&vec!["doc".to_string()]));
    assert!(!is_doc(&vec!["inline".to_string()]));
    assert!(!is_doc(&vec!["a".to_string(), "doc".to_string()]));
    assert!(!is_doc(&vec![]));
}

#[test]
fn attributes_are_sorted_by_their_paths() {
    let tokens = lex("#[x] #[y] #[z] 1");
    let paths = vec![vec!["doc".to_string()], vec!["y".to_string()], vec!["doc".to_string()]];
    let mut notes = vec![at(90, Problem::EmptyMatch)];
    let docs = sort_attributes(&tokens, 0, &paths, &mut notes);
    assert_eq!(docs, vec!["# [x ] ", "# [z ] "]);
    assert_eq!(notes, vec![at(90, Problem::EmptyMatch), at(3, Problem::UnexpectedAttribute)]);
}

#[test]
fn attributes_paths_and_arguments_end_where_the_rust_grammar_ends_them() {
    let tokens = lex("#[a::b(c)] /// d\n x: u8, y");
    let (paths, end) = find_attributes(&tokens, 0).unwrap();
    assert_eq!(paths, vec![vec!["a".to_string(), "b".to_string()], vec!["doc".to_string()]]);
    assert_eq!(end, 4);
    assert_eq!(find_attributes(&tokens, 4), Some((vec![], 4)));
    assert_eq!(find_argument(&tokens, 4), Some((Some("x".to_string()), 7)));
    assert_eq!(find_argument(&tokens, 8), Some((None, 9)));
    assert_eq!(find_argument(&tokens, 7), None);
    let tokens = lex("a::b<c>::d , e");
    assert_eq!(find_path_end(&tokens, 0), Some(10));
    assert_eq!(find_path_end(&tokens, 10), None);
    assert!(is_integer_literal(&"404".to_string()));
    assert!(is_integer_literal(&"0x1f_u8".to_string()));
    assert!(!is_integer_literal(&"4.0".to_string()));
    assert!(!is_integer_literal(&"x".to_string()));
}

#[test]
fn literal_forms_that_the_grammar_does_not_know_are_no_literals() {
    for text in ["c\"abc\"", "cr#\"a\"#", "\"\\u{110000}\"", "\"\\xff\"", "'ab'"] {
        assert!(!is_integer_literal(&text.to_string()));
        assert_eq!(string_literal_value(&text.to_string()), None);
        let tokens = vec![
            Token::Ident { text: "A".to_string(), span: whole() },
            Token::Punct { ch: '<', joint: false, span: whole() },
            Token::Literal { text: text.to_string(), span: whole() },
            Token::Punct { ch: '>', joint: false, span: whole() },
        ];
        assert_eq!(find_path_end(&tokens, 0), None);
        assert_eq!(routes("match R { c\"/\" => A }").unwrap_err()[0].problem, Problem::ExpectedString);
    }
}
