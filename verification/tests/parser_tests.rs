use compiler::grammar::ErrorKind;
use compiler::lexer::tokenize;
use compiler::parser::ParseError;
use compiler::{Parser, Token, TokenType};

fn check(source: &str) -> Result<(), ParseError> {
    let tokens = tokenize(source).unwrap();
    let mut parser = Parser::new(&tokens);
    parser.parse()
}

fn refusal(source: &str) -> (ErrorKind, Option<TokenType>, Option<Token>) {
    let error = check(source).unwrap_err();
    (error.kind, error.expected, error.found)
}

fn ident(text: &str, line: usize, column: usize) -> Token {
    Token::Identifier(text.to_string(), line, column)
}

#[test]
fn declaration_parses_and_is_recorded() {
    let tokens = tokenize("b8 x;").unwrap();
    let mut parser = Parser::new(&tokens);
    assert_eq!(parser.parse(), Ok(()));
    assert!(parser.symbol_table_contains("x"));
    assert!(parser.check_symbol_table_for_type("x", TokenType::B8));
    assert!(!parser.check_symbol_table_for_type("x", TokenType::B16));
    assert!(!parser.check_symbol_table_for_type("x", TokenType::Function));
    assert!(!parser.symbol_table_contains("y"));
    assert!(!parser.symbol_table_contains(""));
}

#[test]
fn assignment_without_declaration_fails() {
    assert_eq!(refusal("x = 1;"), (ErrorKind::Declaration, None, Some(ident("x", 1, 1))));
}

#[test]
fn assignment_with_precedence_parses() {
    assert_eq!(check("b8 x; x = 1 + 2 * 3;"), Ok(()));
}

#[test]
fn break_inside_while_parses() {
    assert_eq!(check("while (1) { break; }"), Ok(()));
}

#[test]
fn break_at_top_level_fails() {
    assert_eq!(refusal("break;"), (ErrorKind::Context, None, Some(Token::Break(1, 5))));
}

#[test]
fn function_with_return_and_call_parses() {
    let tokens = tokenize("function f() { return; } f();").unwrap();
    let mut parser = Parser::new(&tokens);
    assert_eq!(parser.parse(), Ok(()));
    assert!(parser.check_symbol_table_for_type("f", TokenType::Function));
}

#[test]
fn empty_program_parses() {
    assert_eq!(check(""), Ok(()));
    assert_eq!(check("// nothing\n"), Ok(()));
}

#[test]
fn use_before_declaration_fails_and_after_it_parses() {
    assert_eq!(refusal("x = 1; b8 x;").0, ErrorKind::Declaration);
    assert_eq!(check("b8 x; x = 1;"), Ok(()));
    assert_eq!(refusal("f(); function f() { }").0, ErrorKind::Declaration);
    assert_eq!(check("function f() { } f();"), Ok(()));
    assert_eq!(refusal("function f() { } f(a); b8 a;").0, ErrorKind::Declaration);
    assert_eq!(check("b8 a; function f() { } f(a);"), Ok(()));
    assert_eq!(check("function f() { } b8 a; f(a);"), Ok(()));
}

#[test]
fn undeclared_argument_fails() {
    assert_eq!(
        refusal("function f() { } f(a);"),
        (ErrorKind::Declaration, None, Some(ident("a", 1, 20)))
    );
    assert_eq!(
        refusal("b8 a; function f() { } f(a, b);"),
        (ErrorKind::Declaration, None, Some(ident("b", 1, 29)))
    );
}

#[test]
fn continue_needs_a_loop() {
    assert_eq!(refusal("continue;"), (ErrorKind::Context, None, Some(Token::Continue(1, 8))));
    assert_eq!(check("while (1) { continue; }"), Ok(()));
    assert_eq!(check("while (1) { if (1) { continue; } else { break; } }"), Ok(()));
}

#[test]
fn return_needs_a_function() {
    assert_eq!(refusal("return;"), (ErrorKind::Context, None, Some(Token::Return(1, 6))));
    assert_eq!(refusal("return 1;").0, ErrorKind::Context);
    assert_eq!(check("function f() { return; }"), Ok(()));
    assert_eq!(check("function f() { return 1 + 2; }"), Ok(()));
    assert_eq!(check("function f() { while (1) { return (1); } }"), Ok(()));
}

#[test]
fn nesting_ends_with_the_body() {
    assert_eq!(
        refusal("while (1) { } break;"),
        (ErrorKind::Context, None, Some(Token::Break(1, 19)))
    );
    assert_eq!(
        refusal("function f() { } return;"),
        (ErrorKind::Context, None, Some(Token::Return(1, 23)))
    );
    assert_eq!(refusal("if (1) { break; }").0, ErrorKind::Context);
    assert_eq!(refusal("function f() { break; }").0, ErrorKind::Context);
    assert_eq!(refusal("while (1) { return; }").0, ErrorKind::Context);
}

#[test]
fn nesting_is_kept_behind_an_inner_body() {
    assert_eq!(check("while (1) { while (1) { } break; }"), Ok(()));
    assert_eq!(check("function f() { if (1) { function g() { } return; } }"), Ok(()));
    assert_eq!(check("function f() { function g() { return; } return; }"), Ok(()));
    assert_eq!(check("while (1) { function g() { break; } continue; }"), Ok(()));
}

#[test]
fn if_with_and_without_else() {
    assert_eq!(check("if (1) { }"), Ok(()));
    assert_eq!(check("if (1) { } else { }"), Ok(()));
    assert_eq!(check("b8 x; if (x) { x = 1; } else { x = 2; } x = 3;"), Ok(()));
    assert_eq!(check("if (1) { if (2) { } else { } } else { if (3) { } }"), Ok(()));
    assert_eq!(
        refusal("if (1) { } else x"),
        (ErrorKind::Syntax, Some(TokenType::LeftBraces), Some(ident("x", 1, 17)))
    );
    assert_eq!(
        refusal("if 1 { }"),
        (ErrorKind::Syntax, Some(TokenType::LeftParenthesis), Some(Token::Number(1, 1, 4)))
    );
    assert_eq!(
        refusal("if (1) }"),
        (ErrorKind::Syntax, Some(TokenType::LeftBraces), Some(Token::RightBraces(1, 8)))
    );
}

#[test]
fn else_without_if_fails() {
    assert_eq!(refusal("else { }"), (ErrorKind::Syntax, None, Some(Token::Else(1, 4))));
}

#[test]
fn comparisons_are_no_expressions() {
    assert_eq!(
        refusal("b8 a; if (a == 1) { }"),
        (ErrorKind::Syntax, Some(TokenType::RightParenthesis), Some(Token::Equal(1, 14)))
    );
    assert_eq!(
        refusal("b8 a; while (a < 1) { }"),
        (ErrorKind::Syntax, Some(TokenType::RightParenthesis), Some(Token::Less(1, 16)))
    );
    assert_eq!(refusal("b8 a; a = true;"), (ErrorKind::Syntax, None, Some(Token::True(1, 14))));
}

#[test]
fn print_statement() {
    assert_eq!(check("print(1);"), Ok(()));
    assert_eq!(check("print((1 + 2) * x / 4 - y);"), Ok(()));
    assert_eq!(
        refusal("print(1)"),
        (ErrorKind::Syntax, Some(TokenType::Semicolon), Some(Token::EOF(1, 8)))
    );
    assert_eq!(
        refusal("print 1;"),
        (ErrorKind::Syntax, Some(TokenType::LeftParenthesis), Some(Token::Number(1, 1, 7)))
    );
    assert_eq!(refusal("print();"), (ErrorKind::Syntax, None, Some(Token::RightParenthesis(1, 7))));
    assert_eq!(refusal("print(\"s\");").0, ErrorKind::Syntax);
}

#[test]
fn names_in_expressions_are_not_looked_up() {
    assert_eq!(check("b8 x; x = y + z;"), Ok(()));
    assert_eq!(check("print(nobody);"), Ok(()));
}

#[test]
fn expressions() {
    assert_eq!(check("b8 x; x = 1;"), Ok(()));
    assert_eq!(check("b8 x; x = ((1));"), Ok(()));
    assert_eq!(check("b8 x; x = 1 - 2 - 3 / 4 * (5 + x);"), Ok(()));
    assert_eq!(refusal("b8 x; x = ;"), (ErrorKind::Syntax, None, Some(Token::Semicolon(1, 11))));
    assert_eq!(refusal("b8 x; x = 1 + ;"), (ErrorKind::Syntax, None, Some(Token::Semicolon(1, 15))));
    assert_eq!(refusal("b8 x; x = 1 * * 2;"), (ErrorKind::Syntax, None, Some(Token::Star(1, 15))));
    assert_eq!(
        refusal("b8 x; x = (1 + 2;"),
        (ErrorKind::Syntax, Some(TokenType::RightParenthesis), Some(Token::Semicolon(1, 17)))
    );
    assert_eq!(
        refusal("b8 x; x = 1 2;"),
        (ErrorKind::Syntax, Some(TokenType::Semicolon), Some(Token::Number(2, 1, 13)))
    );
    assert_eq!(refusal("b8 x; x = -1;"), (ErrorKind::Syntax, None, Some(Token::Minus(1, 11))));
}

#[test]
fn variable_declarations() {
    assert_eq!(check("B1 a; b2 b; B4 c; b8 d; B16 e; b32 f; B64 g; b128 h;"), Ok(()));
    assert_eq!(
        refusal("b8 ;"),
        (ErrorKind::Syntax, Some(TokenType::Identifier), Some(Token::Semicolon(1, 4)))
    );
    assert_eq!(
        refusal("b8 x"),
        (ErrorKind::Syntax, Some(TokenType::Semicolon), Some(Token::EOF(1, 4)))
    );
    assert_eq!(
        refusal("b8 x y;"),
        (ErrorKind::Syntax, Some(TokenType::Semicolon), Some(ident("y", 1, 6)))
    );
    assert_eq!(
        refusal("b8 b8;"),
        (ErrorKind::Syntax, Some(TokenType::Identifier), Some(Token::B8(1, 5)))
    );
}

#[test]
fn name_is_declared_before_the_semicolon_is_asked_for() {
    let tokens = tokenize("b8 x y").unwrap();
    let mut parser = Parser::new(&tokens);
    assert!(parser.parse().is_err());
    assert!(parser.check_symbol_table_for_type("x", TokenType::B8));
}

#[test]
fn redeclaration_is_accepted_and_keeps_both_entries() {
    let tokens = tokenize("b8 x; b16 x; function x() { } x = x;").unwrap();
    let mut parser = Parser::new(&tokens);
    assert_eq!(
        parser.parse().unwrap_err().expected,
        Some(TokenType::LeftParenthesis)
    );
    assert!(parser.check_symbol_table_for_type("x", TokenType::B8));
    assert!(parser.check_symbol_table_for_type("x", TokenType::B16));
    assert!(parser.check_symbol_table_for_type("x", TokenType::Function));
    assert_eq!(check("b8 x; b16 x; x = 1;"), Ok(()));
}

#[test]
fn declarations_are_not_scoped() {
    assert_eq!(check("function f() { b8 x; } x = 1;"), Ok(()));
    assert_eq!(check("if (1) { b8 x; } else { x = 2; }"), Ok(()));
    assert_eq!(check("while (1) { b8 x; } x = 1;"), Ok(()));
}

#[test]
fn function_declarations() {
    assert_eq!(check("function f() { }"), Ok(()));
    assert_eq!(check("function f(b8 a) { }"), Ok(()));
    assert_eq!(check("function f(b8 a, B16 b, b128 c) { print(a + b); }"), Ok(()));
    assert_eq!(check("function f() { f(); }"), Ok(()));
    assert_eq!(
        refusal("function () { }"),
        (ErrorKind::Syntax, Some(TokenType::Identifier), Some(Token::LeftParenthesis(1, 10)))
    );
    assert_eq!(
        refusal("function f { }"),
        (ErrorKind::Syntax, Some(TokenType::LeftParenthesis), Some(Token::LeftBraces(1, 12)))
    );
    assert_eq!(
        refusal("function f() ;"),
        (ErrorKind::Syntax, Some(TokenType::LeftBraces), Some(Token::Semicolon(1, 14)))
    );
    assert_eq!(
        refusal("function f() { "),
        (ErrorKind::Syntax, None, Some(Token::EOF(1, 15)))
    );
}

#[test]
fn parameter_lists_are_strict() {
    assert_eq!(
        refusal("function f(b8) { }"),
        (ErrorKind::Syntax, Some(TokenType::Identifier), Some(Token::RightParenthesis(1, 14)))
    );
    assert_eq!(
        refusal("function f(b8 a b8 b) { }"),
        (ErrorKind::Syntax, Some(TokenType::RightParenthesis), Some(Token::B8(1, 18)))
    );
    assert_eq!(
        refusal("function f(b8 a,) { }"),
        (ErrorKind::Syntax, None, Some(Token::RightParenthesis(1, 17)))
    );
    assert_eq!(
        refusal("function f(b8 a, b) { }"),
        (ErrorKind::Syntax, None, Some(ident("b", 1, 18)))
    );
    assert_eq!(
        refusal("function f(a) { }"),
        (ErrorKind::Syntax, Some(TokenType::RightParenthesis), Some(ident("a", 1, 12)))
    );
}

#[test]
fn parameters_are_not_declared() {
    assert_eq!(
        refusal("function f(b8 a) { a = 1; }"),
        (ErrorKind::Declaration, None, Some(ident("a", 1, 20)))
    );
    let tokens = tokenize("function f(b8 a) { }").unwrap();
    let mut parser = Parser::new(&tokens);
    assert_eq!(parser.parse(), Ok(()));
    assert!(parser.symbol_table_contains("f"));
    assert!(!parser.symbol_table_contains("a"));
}

#[test]
fn calls() {
    assert_eq!(check("function f() { } f();"), Ok(()));
    assert_eq!(check("b8 a; b8 b; function f() { } f(a); f(a, b); f(f, a, b);"), Ok(()));
    assert_eq!(check("b8 a; a();"), Ok(()));
    assert_eq!(
        refusal("function f() { } f(1);"),
        (ErrorKind::Syntax, Some(TokenType::RightParenthesis), Some(Token::Number(1, 1, 20)))
    );
    assert_eq!(
        refusal("b8 a; function f() { } f(a,);"),
        (ErrorKind::Syntax, Some(TokenType::Identifier), Some(Token::RightParenthesis(1, 28)))
    );
    assert_eq!(
        refusal("b8 a; function f() { } f(a a);"),
        (ErrorKind::Syntax, Some(TokenType::RightParenthesis), Some(ident("a", 1, 28)))
    );
    assert_eq!(
        refusal("function f() { } f()"),
        (ErrorKind::Syntax, Some(TokenType::Semicolon), Some(Token::EOF(1, 20)))
    );
}

#[test]
fn assignment_from_a_call() {
    assert_eq!(check("b8 x; function f() { } x = f();"), Ok(()));
    assert_eq!(check("b8 x; b8 a; function f() { } x = f(a, x);"), Ok(()));
    assert_eq!(
        refusal("b8 x; function f() { } x = f(y);"),
        (ErrorKind::Declaration, None, Some(ident("y", 1, 30)))
    );
    assert_eq!(
        refusal("b8 x; function f() { } x = f;"),
        (ErrorKind::Syntax, Some(TokenType::LeftParenthesis), Some(Token::Semicolon(1, 29)))
    );
    assert_eq!(
        refusal("b8 x; function f() { } x = f + 1;"),
        (ErrorKind::Syntax, Some(TokenType::LeftParenthesis), Some(Token::Plus(1, 30)))
    );
}

#[test]
fn assignment_from_a_variable_is_an_expression() {
    assert_eq!(check("b8 x; b8 y; x = y;"), Ok(()));
    assert_eq!(check("b8 x; b8 y; x = y * 2;"), Ok(()));
    assert_eq!(
        refusal("b8 x; b8 y; x = y();"),
        (ErrorKind::Syntax, Some(TokenType::Semicolon), Some(Token::LeftParenthesis(1, 18)))
    );
}

#[test]
fn name_alone_is_no_statement() {
    assert_eq!(refusal("b8 x; x;"), (ErrorKind::Syntax, None, Some(Token::Semicolon(1, 8))));
    assert_eq!(refusal("b8 x; x + 1;"), (ErrorKind::Syntax, None, Some(Token::Plus(1, 9))));
}

#[test]
fn tokens_that_begin_no_statement() {
    assert_eq!(refusal("1;"), (ErrorKind::Syntax, None, Some(Token::Number(1, 1, 1))));
    assert_eq!(refusal(";"), (ErrorKind::Syntax, None, Some(Token::Semicolon(1, 1))));
    assert_eq!(refusal("}"), (ErrorKind::Syntax, None, Some(Token::RightBraces(1, 1))));
    assert_eq!(refusal("{ }"), (ErrorKind::Syntax, None, Some(Token::LeftBraces(1, 1))));
    assert_eq!(
        refusal("\"s\";"),
        (ErrorKind::Syntax, None, Some(Token::StringLiteral("s".to_string(), 1, 3)))
    );
    assert_eq!(refusal("true;"), (ErrorKind::Syntax, None, Some(Token::True(1, 4))));
}

#[test]
fn parsing_stops_at_the_first_refusal() {
    assert_eq!(
        refusal("b8 x;\nx = ;\nbreak;\ny = 1;"),
        (ErrorKind::Syntax, None, Some(Token::Semicolon(2, 5)))
    );
    assert_eq!(
        refusal("break;\nx = ;"),
        (ErrorKind::Context, None, Some(Token::Break(1, 5)))
    );
}

#[test]
fn tokens_without_end_marker_run_out() {
    let tokens = vec![Token::B8(1, 2), ident("x", 1, 4), Token::Semicolon(1, 5)];
    let mut parser = Parser::new(&tokens);
    assert_eq!(
        parser.parse(),
        Err(ParseError { kind: ErrorKind::Syntax, expected: None, found: None })
    );
    assert!(parser.symbol_table_contains("x"));

    let tokens = vec![Token::B8(1, 2), ident("x", 1, 4)];
    let mut parser = Parser::new(&tokens);
    assert_eq!(
        parser.parse(),
        Err(ParseError {
            kind: ErrorKind::Syntax,
            expected: Some(TokenType::Semicolon),
            found: None
        })
    );

    let tokens: Vec<Token> = Vec::new();
    let mut parser = Parser::new(&tokens);
    assert_eq!(
        parser.parse(),
        Err(ParseError { kind: ErrorKind::Syntax, expected: None, found: None })
    );
}

#[test]
fn tokens_behind_the_end_marker_are_not_read() {
    let tokens = vec![Token::EOF(1, 0), Token::Break(1, 5), Token::Semicolon(1, 6)];
    let mut parser = Parser::new(&tokens);
    assert_eq!(parser.parse(), Ok(()));
    assert_eq!(parser.peek(), Some(&Token::EOF(1, 0)));
    assert_eq!(parser.parse(), Ok(()));
}

#[test]
fn end_marker_inside_a_body_fails() {
    assert_eq!(
        refusal("while (1) { b8 x;"),
        (ErrorKind::Syntax, None, Some(Token::EOF(1, 17)))
    );
}

#[test]
fn tokens_match_by_kind_not_by_position_or_text() {
    let tokens = vec![
        Token::B8(9, 9),
        ident("x", 0, 0),
        Token::Semicolon(3, 1),
        ident("x", 7, 7),
        Token::Assing(1, 1),
        Token::Number(-1, 0, 0),
        Token::Semicolon(0, 0),
        Token::EOF(0, 0),
    ];
    let mut parser = Parser::new(&tokens);
    assert_eq!(parser.parse(), Ok(()));
}

#[test]
fn single_productions() {
    let tokens = tokenize("1 + 2 * (3 - x) ;").unwrap();
    let mut parser = Parser::new(&tokens);
    assert_eq!(parser.peek_kind(), Some(TokenType::Number));
    assert!(parser.at_kind(TokenType::Number));
    assert!(!parser.at_width());
    assert_eq!(parser.parse_expression(), Ok(()));
    assert_eq!(parser.peek(), Some(&Token::Semicolon(1, 17)));
    assert_eq!(
        parser.expect(TokenType::Comma),
        Err(ParseError {
            kind: ErrorKind::Syntax,
            expected: Some(TokenType::Comma),
            found: Some(Token::Semicolon(1, 17)),
        })
    );
    assert_eq!(parser.expect(TokenType::Semicolon), Ok(()));
    assert_eq!(parser.peek_kind(), Some(TokenType::EOF));
    assert_eq!(parser.expect(TokenType::EOF), Ok(()));
    assert_eq!(parser.peek(), None);
    assert_eq!(parser.peek_kind(), None);
    assert_eq!(
        parser.report_error(ErrorKind::Context, None),
        ParseError { kind: ErrorKind::Context, expected: None, found: None }
    );
}

#[test]
fn term_and_factor() {
    let tokens = tokenize("2 * 3 + 4").unwrap();
    let mut parser = Parser::new(&tokens);
    assert_eq!(parser.parse_term(), Ok(()));
    assert_eq!(parser.peek(), Some(&Token::Plus(1, 7)));
    assert_eq!(
        parser.parse_factor(),
        Err(ParseError { kind: ErrorKind::Syntax, expected: None, found: Some(Token::Plus(1, 7)) })
    );
    assert_eq!(parser.expect(TokenType::Plus), Ok(()));
    assert_eq!(parser.parse_factor(), Ok(()));
    assert!(parser.at_kind(TokenType::EOF));
}

#[test]
fn jump_statements_alone() {
    let tokens = tokenize("break; continue; return 1; return;").unwrap();
    let mut parser = Parser::new(&tokens);
    assert_eq!(parser.parse_break_stmt(), Ok(()));
    assert_eq!(parser.parse_continue_stmt(), Ok(()));
    assert_eq!(parser.parse_return_stmt(), Ok(()));
    assert_eq!(parser.parse_return_stmt(), Ok(()));
    assert!(parser.at_kind(TokenType::EOF));
    assert_eq!(parser.parse_statement().unwrap_err().kind, ErrorKind::Syntax);
}

#[test]
fn block_and_statement_list() {
    let tokens = tokenize("{ b8 x; x = 1; } b8 y; }").unwrap();
    let mut parser = Parser::new(&tokens);
    assert_eq!(parser.parse_block(), Ok(()));
    assert!(parser.at_width());
    assert_eq!(parser.parse_statements(TokenType::RightBraces), Ok(()));
    assert!(parser.at_kind(TokenType::RightBraces));
    assert!(parser.symbol_table_contains("y"));
}

#[test]
fn lists_alone() {
    let tokens = tokenize("b8 a, b16 b ) a , a )").unwrap();
    let mut parser = Parser::new(&tokens);
    assert_eq!(parser.parse_param_list(), Ok(()));
    assert_eq!(parser.expect(TokenType::RightParenthesis), Ok(()));
    assert_eq!(parser.parse_func_call_param_list().unwrap_err().kind, ErrorKind::Declaration);

    let tokens = tokenize("b8 a; a , a )").unwrap();
    let mut parser = Parser::new(&tokens);
    assert_eq!(parser.parse_var_decl(), Ok(()));
    assert_eq!(parser.parse_func_call_param_list(), Ok(()));
    assert!(parser.at_kind(TokenType::RightParenthesis));
    assert_eq!(parser.parse_func_call_param_list(), Ok(()));
    assert_eq!(parser.parse_param_list(), Ok(()));
    assert!(parser.at_kind(TokenType::RightParenthesis));
}

#[test]
fn declared_name_alone() {
    let tokens = tokenize("b8 a; a b 1").unwrap();
    let mut parser = Parser::new(&tokens);
    assert_eq!(parser.parse_statement(), Ok(()));
    assert_eq!(parser.check_symbol_table_for_identifier(), Ok(()));
    assert_eq!(
        parser.check_symbol_table_for_identifier(),
        Err(ParseError {
            kind: ErrorKind::Declaration,
            expected: None,
            found: Some(ident("b", 1, 9)),
        })
    );
    assert_eq!(parser.parse_factor(), Ok(()));
    assert_eq!(
        parser.check_symbol_table_for_identifier(),
        Err(ParseError {
            kind: ErrorKind::Syntax,
            expected: Some(TokenType::Identifier),
            found: Some(Token::Number(1, 1, 11)),
        })
    );
}

#[test]
fn larger_program() {
    let source = "\
// greatest common divisor, more or less
B32 a;
b32 b;
function step(b32 x, b32 y) {
    if (b) {
        a = a - b;
    } else {
        return a;
    }
    return;
}
a = 48;
b = 18;
while (a - b) {
    a = step(a, b);
    if (a) { continue; }
    break;
}
print(a * (b + 1) / 2);
";
    assert_eq!(check(source), Ok(()));
}
