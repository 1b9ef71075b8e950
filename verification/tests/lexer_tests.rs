use compiler::constants::permitted_id_characters;
use compiler::lexer::{
    classify_word, collect_text, continues_identifier, is_blank_char, is_digit_char,
    is_id_continue_char, is_id_start_char, paired_symbol_kind, single_symbol_kind, spells,
    tokenize,
};
use compiler::lexical::LexError;
use compiler::{Lexer, Token, TokenType};

fn kinds(source: &str) -> Vec<TokenType> {
    tokenize(source).unwrap().iter().map(|t| t.kind()).collect()
}

fn ident(text: &str, line: usize, column: usize) -> Token {
    Token::Identifier(text.to_string(), line, column)
}

#[test]
fn declaration_tokens() {
    let tokens = tokenize("b8 x;").unwrap();
    assert_eq!(
        tokens,
        vec![Token::B8(1, 2), ident("x", 1, 4), Token::Semicolon(1, 5), Token::EOF(1, 5)]
    );
}

#[test]
fn empty_input_is_the_end_marker() {
    assert_eq!(tokenize(""), Ok(vec![Token::EOF(1, 0)]));
    let mut lexer = Lexer::new("");
    assert_eq!(lexer.next_token(), Ok(Token::EOF(1, 0)));
    assert_eq!(lexer.next_token(), Ok(Token::EOF(1, 0)));
}

#[test]
fn end_marker_repeats() {
    let mut lexer = Lexer::new("x");
    assert_eq!(lexer.next_token(), Ok(ident("x", 1, 1)));
    for _ in 0..5 {
        assert_eq!(lexer.next_token(), Ok(Token::EOF(1, 1)));
    }
}

#[test]
fn end_marker_repeats_after_trailing_blanks_and_comment() {
    let mut lexer = Lexer::new("x  \n// done");
    assert_eq!(lexer.next_token(), Ok(ident("x", 1, 1)));
    assert_eq!(lexer.next_token(), Ok(Token::EOF(2, 7)));
    assert_eq!(lexer.next_token(), Ok(Token::EOF(2, 7)));
    assert_eq!(lexer.next_token(), Ok(Token::EOF(2, 7)));
}

#[test]
fn width_keywords_in_both_cases() {
    assert_eq!(
        kinds("B1 B2 B4 B8 B16 B32 B64 B128"),
        vec![
            TokenType::B1,
            TokenType::B2,
            TokenType::B4,
            TokenType::B8,
            TokenType::B16,
            TokenType::B32,
            TokenType::B64,
            TokenType::B128,
            TokenType::EOF,
        ]
    );
    assert_eq!(kinds("b1 b2 b4 b8 b16 b32 b64 b128"), kinds("B1 B2 B4 B8 B16 B32 B64 B128"));
}

#[test]
fn other_keywords_are_lower_case_only() {
    assert_eq!(
        kinds("function if else while return break continue print true false"),
        vec![
            TokenType::Function,
            TokenType::If,
            TokenType::Else,
            TokenType::While,
            TokenType::Return,
            TokenType::Break,
            TokenType::Continue,
            TokenType::Print,
            TokenType::True,
            TokenType::False,
            TokenType::EOF,
        ]
    );
    assert_eq!(
        kinds("Function IF Else WHILE Return Break Continue Print True False"),
        vec![
            TokenType::Identifier,
            TokenType::Identifier,
            TokenType::Identifier,
            TokenType::Identifier,
            TokenType::Identifier,
            TokenType::Identifier,
            TokenType::Identifier,
            TokenType::Identifier,
            TokenType::Identifier,
            TokenType::Identifier,
            TokenType::EOF,
        ]
    );
}

#[test]
fn longer_words_are_identifiers() {
    assert_eq!(
        tokenize("B16x b16x B3 b12 B1288 whiles"),
        Ok(vec![
            ident("B16x", 1, 4),
            ident("b16x", 1, 9),
            ident("B3", 1, 12),
            ident("b12", 1, 16),
            ident("B1288", 1, 22),
            ident("whiles", 1, 29),
            Token::EOF(1, 29),
        ])
    );
}

#[test]
fn identifiers_take_letters_digits_underscore_and_hyphen() {
    assert_eq!(
        tokenize("_a1 a-b a_b- caf\u{e9}9"),
        Ok(vec![
            ident("_a1", 1, 3),
            ident("a-b", 1, 7),
            ident("a_b-", 1, 12),
            ident("caf\u{e9}9", 1, 18),
            Token::EOF(1, 18),
        ])
    );
}

#[test]
fn identifier_ends_at_other_characters() {
    assert_eq!(
        tokenize("ab+cd"),
        Ok(vec![ident("ab", 1, 2), Token::Plus(1, 3), ident("cd", 1, 5), Token::EOF(1, 5)])
    );
}

#[test]
fn hyphen_after_a_name_belongs_to_the_name() {
    assert_eq!(
        tokenize("a-1 - 2"),
        Ok(vec![ident("a-1", 1, 3), Token::Minus(1, 5), Token::Number(2, 1, 7), Token::EOF(1, 7)])
    );
}

#[test]
fn numbers() {
    assert_eq!(
        tokenize("0 007 42 9223372036854775807"),
        Ok(vec![
            Token::Number(0, 1, 1),
            Token::Number(7, 1, 5),
            Token::Number(42, 1, 8),
            Token::Number(9223372036854775807, 1, 28),
            Token::EOF(1, 28),
        ])
    );
}

#[test]
fn number_followed_by_letters() {
    assert_eq!(
        tokenize("12abc"),
        Ok(vec![Token::Number(12, 1, 2), ident("abc", 1, 5), Token::EOF(1, 5)])
    );
}

#[test]
fn number_out_of_range_fails() {
    assert_eq!(tokenize("9223372036854775808"), Err(LexError::NumberOutOfRange { line: 1 }));
    assert_eq!(
        tokenize("x\n\n99999999999999999999999999;"),
        Err(LexError::NumberOutOfRange { line: 3 })
    );
    let mut lexer = Lexer::new("1 9223372036854775808");
    assert_eq!(lexer.next_token(), Ok(Token::Number(1, 1, 1)));
    assert_eq!(lexer.next_token(), Err(LexError::NumberOutOfRange { line: 1 }));
    assert_eq!(lexer.next_token(), Err(LexError::NumberOutOfRange { line: 1 }));
}

#[test]
fn long_run_of_zeros_is_zero() {
    assert_eq!(
        tokenize("0000000000000000000000000000000"),
        Ok(vec![Token::Number(0, 1, 31), Token::EOF(1, 31)])
    );
}

#[test]
fn string_literals() {
    assert_eq!(
        tokenize("\"abc\" \"\" \"a\\n\""),
        Ok(vec![
            Token::StringLiteral("abc".to_string(), 1, 5),
            Token::StringLiteral("".to_string(), 1, 8),
            Token::StringLiteral("a\\n".to_string(), 1, 14),
            Token::EOF(1, 14),
        ])
    );
}

#[test]
fn unterminated_string_ends_with_the_input() {
    assert_eq!(
        tokenize("\"abc"),
        Ok(vec![Token::StringLiteral("abc".to_string(), 1, 4), Token::EOF(1, 4)])
    );
    assert_eq!(
        tokenize("\""),
        Ok(vec![Token::StringLiteral("".to_string(), 1, 1), Token::EOF(1, 1)])
    );
}

#[test]
fn line_break_inside_a_string_counts_as_a_column() {
    assert_eq!(
        tokenize("\"a\nb\" x"),
        Ok(vec![Token::StringLiteral("a\nb".to_string(), 1, 5), ident("x", 1, 7), Token::EOF(1, 7)])
    );
}

#[test]
fn symbols() {
    assert_eq!(
        tokenize("= == != > >= < <= + - * / ( ) { } , ;"),
        Ok(vec![
            Token::Assing(1, 1),
            Token::Equal(1, 4),
            Token::NotEqual(1, 7),
            Token::Greater(1, 9),
            Token::GreaterEqual(1, 12),
            Token::Less(1, 14),
            Token::LessEqual(1, 17),
            Token::Plus(1, 19),
            Token::Minus(1, 21),
            Token::Star(1, 23),
            Token::Slash(1, 25),
            Token::LeftParenthesis(1, 27),
            Token::RightParenthesis(1, 29),
            Token::LeftBraces(1, 31),
            Token::RightBraces(1, 33),
            Token::Comma(1, 35),
            Token::Semicolon(1, 37),
            Token::EOF(1, 37),
        ])
    );
}

#[test]
fn symbols_without_blanks() {
    assert_eq!(
        tokenize("===>=<==!=<"),
        Ok(vec![
            Token::Equal(1, 2),
            Token::Assing(1, 3),
            Token::GreaterEqual(1, 5),
            Token::LessEqual(1, 7),
            Token::Assing(1, 8),
            Token::NotEqual(1, 10),
            Token::Less(1, 11),
            Token::EOF(1, 11),
        ])
    );
}

#[test]
fn lone_bang_fails() {
    assert_eq!(tokenize("a ! b"), Err(LexError::UnexpectedAfterBang { line: 1 }));
    assert_eq!(tokenize("a\n!"), Err(LexError::UnexpectedAfterBang { line: 2 }));
}

#[test]
fn unexpected_character_fails() {
    assert_eq!(tokenize("a @ b"), Err(LexError::UnexpectedCharacter { ch: '@', line: 1 }));
    assert_eq!(tokenize("a\n\n#"), Err(LexError::UnexpectedCharacter { ch: '#', line: 3 }));
    assert_eq!(tokenize("\u{e9}"), Err(LexError::UnexpectedCharacter { ch: '\u{e9}', line: 1 }));
    assert_eq!(tokenize("a\r\nb"), Err(LexError::UnexpectedCharacter { ch: '\r', line: 1 }));
}

#[test]
fn failure_leaves_the_tokenizer_on_the_character() {
    let mut lexer = Lexer::new("a  @");
    assert_eq!(lexer.next_token(), Ok(ident("a", 1, 1)));
    assert_eq!(lexer.next_token(), Err(LexError::UnexpectedCharacter { ch: '@', line: 1 }));
    assert_eq!(lexer.next_token(), Err(LexError::UnexpectedCharacter { ch: '@', line: 1 }));
}

#[test]
fn comments_are_passed_over() {
    assert_eq!(
        tokenize("a // b c\nd"),
        Ok(vec![ident("a", 1, 1), ident("d", 2, 1), Token::EOF(2, 1)])
    );
    assert_eq!(tokenize("// only"), Ok(vec![Token::EOF(1, 7)]));
    assert_eq!(tokenize("//\n//\nx"), Ok(vec![ident("x", 3, 1), Token::EOF(3, 1)]));
    assert_eq!(tokenize("// @ ! \u{e9}\n"), Ok(vec![Token::EOF(2, 0)]));
}

#[test]
fn single_slash_divides() {
    assert_eq!(
        tokenize("a / b"),
        Ok(vec![ident("a", 1, 1), Token::Slash(1, 3), ident("b", 1, 5), Token::EOF(1, 5)])
    );
    assert_eq!(tokenize("/"), Ok(vec![Token::Slash(1, 1), Token::EOF(1, 1)]));
    assert_eq!(
        tokenize("/ /"),
        Ok(vec![Token::Slash(1, 1), Token::Slash(1, 3), Token::EOF(1, 3)])
    );
    assert_eq!(tokenize("/// x"), Ok(vec![Token::EOF(1, 5)]));
}

#[test]
fn blanks_count_as_columns_and_line_breaks_reset_them() {
    assert_eq!(
        tokenize("  a\t b\n\n   c \n"),
        Ok(vec![ident("a", 1, 3), ident("b", 1, 6), ident("c", 3, 4), Token::EOF(4, 0)])
    );
}

#[test]
fn line_break_after_blank_starts_a_new_line() {
    assert_eq!(
        tokenize("a \nb"),
        Ok(vec![ident("a", 1, 1), ident("b", 2, 1), Token::EOF(2, 1)])
    );
}

#[test]
fn lines_never_decrease() {
    let source = "b8 x;\n// c\nwhile (x) {\n  x = x - 1;\n\n}\n\"s\nt\" y";
    let tokens = tokenize(source).unwrap();
    let mut last = 1;
    for token in &tokens {
        let (line, _) = token.position();
        assert!(last <= line);
        last = line;
    }
    assert_eq!(tokens.last().unwrap().kind(), TokenType::EOF);
    assert_eq!(tokens.iter().filter(|t| t.kind() == TokenType::EOF).count(), 1);
}

#[test]
fn whole_program_tokens() {
    assert_eq!(
        kinds("function f() { return; } f();"),
        vec![
            TokenType::Function,
            TokenType::Identifier,
            TokenType::LeftParenthesis,
            TokenType::RightParenthesis,
            TokenType::LeftBraces,
            TokenType::Return,
            TokenType::Semicolon,
            TokenType::RightBraces,
            TokenType::Identifier,
            TokenType::LeftParenthesis,
            TokenType::RightParenthesis,
            TokenType::Semicolon,
            TokenType::EOF,
        ]
    );
}

#[test]
fn tokenize_stops_at_the_first_failure() {
    assert_eq!(tokenize("a @ !"), Err(LexError::UnexpectedCharacter { ch: '@', line: 1 }));
    assert_eq!(tokenize("a ! @"), Err(LexError::UnexpectedAfterBang { line: 1 }));
}

#[test]
fn permitted_characters() {
    assert_eq!(permitted_id_characters(), vec!['_', '-']);
}

#[test]
fn character_classes() {
    assert!(is_blank_char(' ') && is_blank_char('\t'));
    assert!(!is_blank_char('\n') && !is_blank_char('\r') && !is_blank_char('a'));
    assert!(is_digit_char('0') && is_digit_char('9'));
    assert!(!is_digit_char('a') && !is_digit_char('/') && !is_digit_char(':'));
    assert!(is_id_start_char('a') && is_id_start_char('Z') && is_id_start_char('_'));
    assert!(!is_id_start_char('1') && !is_id_start_char('-') && !is_id_start_char('\u{e9}'));
    let permitted = permitted_id_characters();
    assert!(is_id_continue_char('a', &permitted));
    assert!(is_id_continue_char('7', &permitted));
    assert!(is_id_continue_char('-', &permitted));
    assert!(is_id_continue_char('_', &permitted));
    assert!(is_id_continue_char('\u{e9}', &permitted));
    assert!(!is_id_continue_char('+', &permitted));
    assert!(!is_id_continue_char(' ', &permitted));
}

#[test]
fn continues_identifier_by_answer_or_by_list() {
    let permitted = permitted_id_characters();
    assert!(continues_identifier('+', true, &permitted));
    assert!(continues_identifier('-', false, &permitted));
    assert!(continues_identifier('_', false, &permitted));
    assert!(!continues_identifier('a', false, &permitted));
    assert!(!continues_identifier('-', false, &Vec::new()));
}

#[test]
fn symbol_kinds() {
    assert_eq!(single_symbol_kind('='), Some(TokenType::Assing));
    assert_eq!(single_symbol_kind('/'), Some(TokenType::Slash));
    assert_eq!(single_symbol_kind('!'), None);
    assert_eq!(single_symbol_kind('a'), None);
    assert_eq!(paired_symbol_kind('='), Some(TokenType::Equal));
    assert_eq!(paired_symbol_kind('!'), Some(TokenType::NotEqual));
    assert_eq!(paired_symbol_kind('>'), Some(TokenType::GreaterEqual));
    assert_eq!(paired_symbol_kind('<'), Some(TokenType::LessEqual));
    assert_eq!(paired_symbol_kind('+'), None);
}

#[test]
fn words_and_their_kinds() {
    let input: Vec<char> = "xb16while".chars().collect();
    assert!(spells(&input, 1, 4, "b16"));
    assert!(!spells(&input, 1, 4, "b1"));
    assert!(!spells(&input, 1, 4, "b17"));
    assert!(spells(&input, 2, 2, ""));
    assert_eq!(classify_word(&input, 1, 4), TokenType::B16);
    assert_eq!(classify_word(&input, 1, 3), TokenType::B1);
    assert_eq!(classify_word(&input, 4, 9), TokenType::While);
    assert_eq!(classify_word(&input, 0, 4), TokenType::Identifier);
    assert_eq!(classify_word(&input, 3, 3), TokenType::Identifier);
    assert_eq!(collect_text(&input, 1, 4), "b16".to_string());
    assert_eq!(collect_text(&input, 4, 4), "".to_string());
}
