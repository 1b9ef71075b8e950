use compiler::{Token, TokenType};

#[test]
fn kind_ignores_payload_and_position() {
    assert_eq!(Token::B8(1, 2).kind(), TokenType::B8);
    assert_eq!(Token::B8(7, 9).kind(), TokenType::B8);
    assert_eq!(Token::Identifier("x".to_string(), 1, 1).kind(), TokenType::Identifier);
    assert_eq!(Token::Identifier("y".to_string(), 3, 4).kind(), TokenType::Identifier);
    assert_eq!(Token::Number(5, 1, 1).kind(), TokenType::Number);
    assert_eq!(Token::StringLiteral("s".to_string(), 1, 3).kind(), TokenType::StringLiteral);
    assert_eq!(Token::Assing(1, 1).kind(), TokenType::Assing);
    assert_eq!(Token::EOF(1, 0).kind(), TokenType::EOF);
}

#[test]
fn position_is_line_and_column() {
    assert_eq!(Token::While(3, 5).position(), (3, 5));
    assert_eq!(Token::Identifier("x".to_string(), 2, 9).position(), (2, 9));
    assert_eq!(Token::Number(1, 4, 6).position(), (4, 6));
    assert_eq!(Token::StringLiteral("s".to_string(), 8, 1).position(), (8, 1));
    assert_eq!(Token::EOF(10, 0).position(), (10, 0));
}

#[test]
fn payloads() {
    assert_eq!(Token::Identifier("name".to_string(), 1, 4).text_value(), "name".to_string());
    assert_eq!(Token::StringLiteral("a b".to_string(), 1, 5).text_value(), "a b".to_string());
    assert_eq!(Token::Number(-3, 1, 2).number_value(), -3);
    assert_eq!(Token::Number(i64::MAX, 1, 19).number_value(), i64::MAX);
}

#[test]
fn of_kind_builds_the_variant() {
    assert_eq!(Token::of_kind(TokenType::B128, 2, 4), Token::B128(2, 4));
    assert_eq!(Token::of_kind(TokenType::RightBraces, 1, 1), Token::RightBraces(1, 1));
    assert_eq!(Token::of_kind(TokenType::EOF, 5, 0), Token::EOF(5, 0));
    assert_eq!(Token::of_kind(TokenType::Identifier, 1, 1), Token::Identifier(String::new(), 1, 1));
    assert_eq!(Token::of_kind(TokenType::Number, 1, 1), Token::Number(0, 1, 1));
    assert_eq!(
        Token::of_kind(TokenType::StringLiteral, 1, 1),
        Token::StringLiteral(String::new(), 1, 1)
    );
}

#[test]
fn clone_is_equal() {
    let tokens = vec![
        Token::Identifier("x".to_string(), 1, 1),
        Token::StringLiteral("s".to_string(), 1, 5),
        Token::Number(9, 2, 1),
        Token::Function(3, 8),
        Token::EOF(4, 0),
    ];
    for token in &tokens {
        assert_eq!(&token.clone(), token);
    }
}

#[test]
fn width_keywords() {
    let widths = [
        TokenType::B1,
        TokenType::B2,
        TokenType::B4,
        TokenType::B8,
        TokenType::B16,
        TokenType::B32,
        TokenType::B64,
        TokenType::B128,
    ];
    for kind in widths {
        assert!(kind.is_width_keyword());
    }
    assert!(!TokenType::Function.is_width_keyword());
    assert!(!TokenType::Identifier.is_width_keyword());
    assert!(!TokenType::EOF.is_width_keyword());
}
