use vstd::prelude::*;

verus! {

/// The kind of a token: its variant, without payload or position.
///
/// Grammar decisions are taken on kinds alone.
#[derive(Debug, Clone, Copy, PartialEq, Eq, Structural)]
pub enum TokenType {
    // Keywords
    B1,
    B2,
    B4,
    B8,
    B16,
    B32,
    B64,
    B128,
    Function,
    If,
    Else,
    While,
    Return,
    Break,
    Continue,
    Print,
    True,
    False,
    // Symbols
    Assing,
    Equal,
    NotEqual,
    Greater,
    GreaterEqual,
    Less,
    LessEqual,
    Plus,
    Minus,
    Star,
    Slash,
    LeftParenthesis,
    RightParenthesis,
    LeftBraces,
    RightBraces,
    Comma,
    Semicolon,
    // Literals
    Identifier,
    Number,
    StringLiteral,
    // End of input
    EOF,
}

/// A classified unit of input. The last two fields of every variant are the
/// line and the column reached once the token's characters had been read.
#[derive(PartialEq, Debug)]
pub enum Token {
    // Keywords
    B1(usize, usize),
    B2(usize, usize),
    B4(usize, usize),
    B8(usize, usize),
    B16(usize, usize),
    B32(usize, usize),
    B64(usize, usize),
    B128(usize, usize),
    Function(usize, usize),
    If(usize, usize),
    Else(usize, usize),
    While(usize, usize),
    Return(usize, usize),
    Break(usize, usize),
    Continue(usize, usize),
    Print(usize, usize),
    True(usize, usize),
    False(usize, usize),
    // Symbols
    Assing(usize, usize),
    Equal(usize, usize),
    NotEqual(usize, usize),
    Greater(usize, usize),
    GreaterEqual(usize, usize),
    Less(usize, usize),
    LessEqual(usize, usize),
    Plus(usize, usize),
    Minus(usize, usize),
    Star(usize, usize),
    Slash(usize, usize),
    LeftParenthesis(usize, usize),
    RightParenthesis(usize, usize),
    LeftBraces(usize, usize),
    RightBraces(usize, usize),
    Comma(usize, usize),
    Semicolon(usize, usize),
    // Literals
    Identifier(String, usize, usize),
    Number(i64, usize, usize),
    StringLiteral(String, usize, usize),
    // End of input
    EOF(usize, usize),
}

/// What a token is, as plain values: its kind, its payload and its position.
///
/// `text` is empty unless the token is an identifier or a string literal, and
/// `number` is zero unless it is a number.
pub struct TokenView {
    pub kind: TokenType,
    pub text: Seq<char>,
    pub number: i64,
    pub line: int,
    pub column: int,
}

impl TokenView {
    /// The view of a token of kind `kind` without payload, recorded at `line` and `column`.
    pub open spec fn plain(kind: TokenType, line: int, column: int) -> TokenView {
        TokenView { kind, text: Seq::empty(), number: 0, line, column }
    }
}

impl TokenType {
    /// One of the eight width keywords, which name the type of a variable.
    pub open spec fn is_width(self) -> bool {
        self is B1 || self is B2 || self is B4 || self is B8 || self is B16 || self is B32
            || self is B64 || self is B128
    }

    /// Whether tokens of this kind carry text.
    pub open spec fn has_text(self) -> bool {
        self is Identifier || self is StringLiteral
    }

    /// Whether this is one of the eight width keywords.
    pub fn is_width_keyword(self) -> (r: bool)
        ensures
            r == self.is_width(),
    {
        match self {
            TokenType::B1 | TokenType::B2 | TokenType::B4 | TokenType::B8 | TokenType::B16
            | TokenType::B32 | TokenType::B64 | TokenType::B128 => true,
            _ => false,
        }
    }
}

impl Token {
    /// The token's kind.
    pub open spec fn spec_kind(&self) -> TokenType {
        match self {
            Token::B1(_, _) => TokenType::B1,
            Token::B2(_, _) => TokenType::B2,
            Token::B4(_, _) => TokenType::B4,
            Token::B8(_, _) => TokenType::B8,
            Token::B16(_, _) => TokenType::B16,
            Token::B32(_, _) => TokenType::B32,
            Token::B64(_, _) => TokenType::B64,
            Token::B128(_, _) => TokenType::B128,
            Token::Function(_, _) => TokenType::Function,
            Token::If(_, _) => TokenType::If,
            Token::Else(_, _) => TokenType::Else,
            Token::While(_, _) => TokenType::While,
            Token::Return(_, _) => TokenType::Return,
            Token::Break(_, _) => TokenType::Break,
            Token::Continue(_, _) => TokenType::Continue,
            Token::Print(_, _) => TokenType::Print,
            Token::True(_, _) => TokenType::True,
            Token::False(_, _) => TokenType::False,
            Token::Assing(_, _) => TokenType::Assing,
            Token::Equal(_, _) => TokenType::Equal,
            Token::NotEqual(_, _) => TokenType::NotEqual,
            Token::Greater(_, _) => TokenType::Greater,
            Token::GreaterEqual(_, _) => TokenType::GreaterEqual,
            Token::Less(_, _) => TokenType::Less,
            Token::LessEqual(_, _) => TokenType::LessEqual,
            Token::Plus(_, _) => TokenType::Plus,
            Token::Minus(_, _) => TokenType::Minus,
            Token::Star(_, _) => TokenType::Star,
            Token::Slash(_, _) => TokenType::Slash,
            Token::LeftParenthesis(_, _) => TokenType::LeftParenthesis,
            Token::RightParenthesis(_, _) => TokenType::RightParenthesis,
            Token::LeftBraces(_, _) => TokenType::LeftBraces,
            Token::RightBraces(_, _) => TokenType::RightBraces,
            Token::Comma(_, _) => TokenType::Comma,
            Token::Semicolon(_, _) => TokenType::Semicolon,
            Token::EOF(_, _) => TokenType::EOF,
            Token::Identifier(_, _, _) => TokenType::Identifier,
            Token::Number(_, _, _) => TokenType::Number,
            Token::StringLiteral(_, _, _) => TokenType::StringLiteral,
        }
    }

    /// The line and the column recorded on the token.
    pub open spec fn spec_position(&self) -> (usize, usize) {
        match self {
            Token::B1(line, col) => (*line, *col),
            Token::B2(line, col) => (*line, *col),
            Token::B4(line, col) => (*line, *col),
            Token::B8(line, col) => (*line, *col),
            Token::B16(line, col) => (*line, *col),
            Token::B32(line, col) => (*line, *col),
            Token::B64(line, col) => (*line, *col),
            Token::B128(line, col) => (*line, *col),
            Token::Function(line, col) => (*line, *col),
            Token::If(line, col) => (*line, *col),
            Token::Else(line, col) => (*line, *col),
            Token::While(line, col) => (*line, *col),
            Token::Return(line, col) => (*line, *col),
            Token::Break(line, col) => (*line, *col),
            Token::Continue(line, col) => (*line, *col),
            Token::Print(line, col) => (*line, *col),
            Token::True(line, col) => (*line, *col),
            Token::False(line, col) => (*line, *col),
            Token::Assing(line, col) => (*line, *col),
            Token::Equal(line, col) => (*line, *col),
            Token::NotEqual(line, col) => (*line, *col),
            Token::Greater(line, col) => (*line, *col),
            Token::GreaterEqual(line, col) => (*line, *col),
            Token::Less(line, col) => (*line, *col),
            Token::LessEqual(line, col) => (*line, *col),
            Token::Plus(line, col) => (*line, *col),
            Token::Minus(line, col) => (*line, *col),
            Token::Star(line, col) => (*line, *col),
            Token::Slash(line, col) => (*line, *col),
            Token::LeftParenthesis(line, col) => (*line, *col),
            Token::RightParenthesis(line, col) => (*line, *col),
            Token::LeftBraces(line, col) => (*line, *col),
            Token::RightBraces(line, col) => (*line, *col),
            Token::Comma(line, col) => (*line, *col),
            Token::Semicolon(line, col) => (*line, *col),
            Token::EOF(line, col) => (*line, *col),
            Token::Identifier(_, line, col) => (*line, *col),
            Token::Number(_, line, col) => (*line, *col),
            Token::StringLiteral(_, line, col) => (*line, *col),
        }
    }

    /// The text of an identifier or a string literal; of another token, no text.
    pub open spec fn spec_text(&self) -> Seq<char> {
        match self {
            Token::Identifier(value, _, _) => value@,
            Token::StringLiteral(value, _, _) => value@,
            _ => Seq::empty(),
        }
    }

    /// The value of a number; of another token, zero.
    pub open spec fn spec_number(&self) -> i64 {
        match self {
            Token::Number(value, _, _) => *value,
            _ => 0,
        }
    }

    /// The token of kind `kind` recorded at `line` and `column`, with an empty
    /// text or the number zero where the kind carries a payload.
    pub fn of_kind(kind: TokenType, line: usize, column: usize) -> (t: Token)
        ensures
            t@ == TokenView::plain(kind, line as int, column as int),
    {
        match kind {
            TokenType::B1 => Token::B1(line, column),
            TokenType::B2 => Token::B2(line, column),
            TokenType::B4 => Token::B4(line, column),
            TokenType::B8 => Token::B8(line, column),
            TokenType::B16 => Token::B16(line, column),
            TokenType::B32 => Token::B32(line, column),
            TokenType::B64 => Token::B64(line, column),
            TokenType::B128 => Token::B128(line, column),
            TokenType::Function => Token::Function(line, column),
            TokenType::If => Token::If(line, column),
            TokenType::Else => Token::Else(line, column),
            TokenType::While => Token::While(line, column),
            TokenType::Return => Token::Return(line, column),
            TokenType::Break => Token::Break(line, column),
            TokenType::Continue => Token::Continue(line, column),
            TokenType::Print => Token::Print(line, column),
            TokenType::True => Token::True(line, column),
            TokenType::False => Token::False(line, column),
            TokenType::Assing => Token::Assing(line, column),
            TokenType::Equal => Token::Equal(line, column),
            TokenType::NotEqual => Token::NotEqual(line, column),
            TokenType::Greater => Token::Greater(line, column),
            TokenType::GreaterEqual => Token::GreaterEqual(line, column),
            TokenType::Less => Token::Less(line, column),
            TokenType::LessEqual => Token::LessEqual(line, column),
            TokenType::Plus => Token::Plus(line, column),
            TokenType::Minus => Token::Minus(line, column),
            TokenType::Star => Token::Star(line, column),
            TokenType::Slash => Token::Slash(line, column),
            TokenType::LeftParenthesis => Token::LeftParenthesis(line, column),
            TokenType::RightParenthesis => Token::RightParenthesis(line, column),
            TokenType::LeftBraces => Token::LeftBraces(line, column),
            TokenType::RightBraces => Token::RightBraces(line, column),
            TokenType::Comma => Token::Comma(line, column),
            TokenType::Semicolon => Token::Semicolon(line, column),
            TokenType::EOF => Token::EOF(line, column),
            TokenType::Identifier => Token::Identifier(String::new(), line, column),
            TokenType::Number => Token::Number(0, line, column),
            TokenType::StringLiteral => Token::StringLiteral(String::new(), line, column),
        }
    }

    /// The token's kind.
    pub fn kind(&self) -> (r: TokenType)
        ensures
            r == self@.kind,
    {
        match self {
            Token::B1(_, _) => TokenType::B1,
            Token::B2(_, _) => TokenType::B2,
            Token::B4(_, _) => TokenType::B4,
            Token::B8(_, _) => TokenType::B8,
            Token::B16(_, _) => TokenType::B16,
            Token::B32(_, _) => TokenType::B32,
            Token::B64(_, _) => TokenType::B64,
            Token::B128(_, _) => TokenType::B128,
            Token::Function(_, _) => TokenType::Function,
            Token::If(_, _) => TokenType::If,
            Token::Else(_, _) => TokenType::Else,
            Token::While(_, _) => TokenType::While,
            Token::Return(_, _) => TokenType::Return,
            Token::Break(_, _) => TokenType::Break,
            Token::Continue(_, _) => TokenType::Continue,
            Token::Print(_, _) => TokenType::Print,
            Token::True(_, _) => TokenType::True,
            Token::False(_, _) => TokenType::False,
            Token::Assing(_, _) => TokenType::Assing,
            Token::Equal(_, _) => TokenType::Equal,
            Token::NotEqual(_, _) => TokenType::NotEqual,
            Token::Greater(_, _) => TokenType::Greater,
            Token::GreaterEqual(_, _) => TokenType::GreaterEqual,
            Token::Less(_, _) => TokenType::Less,
            Token::LessEqual(_, _) => TokenType::LessEqual,
            Token::Plus(_, _) => TokenType::Plus,
            Token::Minus(_, _) => TokenType::Minus,
            Token::Star(_, _) => TokenType::Star,
            Token::Slash(_, _) => TokenType::Slash,
            Token::LeftParenthesis(_, _) => TokenType::LeftParenthesis,
            Token::RightParenthesis(_, _) => TokenType::RightParenthesis,
            Token::LeftBraces(_, _) => TokenType::LeftBraces,
            Token::RightBraces(_, _) => TokenType::RightBraces,
            Token::Comma(_, _) => TokenType::Comma,
            Token::Semicolon(_, _) => TokenType::Semicolon,
            Token::EOF(_, _) => TokenType::EOF,
            Token::Identifier(_, _, _) => TokenType::Identifier,
            Token::Number(_, _, _) => TokenType::Number,
            Token::StringLiteral(_, _, _) => TokenType::StringLiteral,
        }
    }

    /// The line and column recorded on the token.
    pub fn position(&self) -> (r: (usize, usize))
        ensures
            r.0 == self@.line,
            r.1 == self@.column,
    {
        match self {
            Token::B1(line, col) => (*line, *col),
            Token::B2(line, col) => (*line, *col),
            Token::B4(line, col) => (*line, *col),
            Token::B8(line, col) => (*line, *col),
            Token::B16(line, col) => (*line, *col),
            Token::B32(line, col) => (*line, *col),
            Token::B64(line, col) => (*line, *col),
            Token::B128(line, col) => (*line, *col),
            Token::Function(line, col) => (*line, *col),
            Token::If(line, col) => (*line, *col),
            Token::Else(line, col) => (*line, *col),
            Token::While(line, col) => (*line, *col),
            Token::Return(line, col) => (*line, *col),
            Token::Break(line, col) => (*line, *col),
            Token::Continue(line, col) => (*line, *col),
            Token::Print(line, col) => (*line, *col),
            Token::True(line, col) => (*line, *col),
            Token::False(line, col) => (*line, *col),
            Token::Assing(line, col) => (*line, *col),
            Token::Equal(line, col) => (*line, *col),
            Token::NotEqual(line, col) => (*line, *col),
            Token::Greater(line, col) => (*line, *col),
            Token::GreaterEqual(line, col) => (*line, *col),
            Token::Less(line, col) => (*line, *col),
            Token::LessEqual(line, col) => (*line, *col),
            Token::Plus(line, col) => (*line, *col),
            Token::Minus(line, col) => (*line, *col),
            Token::Star(line, col) => (*line, *col),
            Token::Slash(line, col) => (*line, *col),
            Token::LeftParenthesis(line, col) => (*line, *col),
            Token::RightParenthesis(line, col) => (*line, *col),
            Token::LeftBraces(line, col) => (*line, *col),
            Token::RightBraces(line, col) => (*line, *col),
            Token::Comma(line, col) => (*line, *col),
            Token::Semicolon(line, col) => (*line, *col),
            Token::EOF(line, col) => (*line, *col),
            Token::Identifier(_, line, col) => (*line, *col),
            Token::Number(_, line, col) => (*line, *col),
            Token::StringLiteral(_, line, col) => (*line, *col),
        }
    }

    /// The text of an identifier or of a string literal.
    pub fn text_value(&self) -> (r: String)
        requires
            self@.kind.has_text(),
        ensures
            r@ == self@.text,
    {
        match self {
            Token::Identifier(value, _, _) => value.clone(),
            Token::StringLiteral(value, _, _) => value.clone(),
            _ => String::new(),
        }
    }

    /// The value of a number.
    pub fn number_value(&self) -> (r: i64)
        requires
            self@.kind is Number,
        ensures
            r == self@.number,
    {
        match self {
            Token::Number(value, _, _) => *value,
            _ => 0,
        }
    }
}

impl Clone for Token {
    /// A token equal to this one.
    fn clone(&self) -> (r: Self)
        ensures
            r == *self,
    {
        match self {
            Token::B1(line, col) => Token::B1(*line, *col),
            Token::B2(line, col) => Token::B2(*line, *col),
            Token::B4(line, col) => Token::B4(*line, *col),
            Token::B8(line, col) => Token::B8(*line, *col),
            Token::B16(line, col) => Token::B16(*line, *col),
            Token::B32(line, col) => Token::B32(*line, *col),
            Token::B64(line, col) => Token::B64(*line, *col),
            Token::B128(line, col) => Token::B128(*line, *col),
            Token::Function(line, col) => Token::Function(*line, *col),
            Token::If(line, col) => Token::If(*line, *col),
            Token::Else(line, col) => Token::Else(*line, *col),
            Token::While(line, col) => Token::While(*line, *col),
            Token::Return(line, col) => Token::Return(*line, *col),
            Token::Break(line, col) => Token::Break(*line, *col),
            Token::Continue(line, col) => Token::Continue(*line, *col),
            Token::Print(line, col) => Token::Print(*line, *col),
            Token::True(line, col) => Token::True(*line, *col),
            Token::False(line, col) => Token::False(*line, *col),
            Token::Assing(line, col) => Token::Assing(*line, *col),
            Token::Equal(line, col) => Token::Equal(*line, *col),
            Token::NotEqual(line, col) => Token::NotEqual(*line, *col),
            Token::Greater(line, col) => Token::Greater(*line, *col),
            Token::GreaterEqual(line, col) => Token::GreaterEqual(*line, *col),
            Token::Less(line, col) => Token::Less(*line, *col),
            Token::LessEqual(line, col) => Token::LessEqual(*line, *col),
            Token::Plus(line, col) => Token::Plus(*line, *col),
            Token::Minus(line, col) => Token::Minus(*line, *col),
            Token::Star(line, col) => Token::Star(*line, *col),
            Token::Slash(line, col) => Token::Slash(*line, *col),
            Token::LeftParenthesis(line, col) => Token::LeftParenthesis(*line, *col),
            Token::RightParenthesis(line, col) => Token::RightParenthesis(*line, *col),
            Token::LeftBraces(line, col) => Token::LeftBraces(*line, *col),
            Token::RightBraces(line, col) => Token::RightBraces(*line, *col),
            Token::Comma(line, col) => Token::Comma(*line, *col),
            Token::Semicolon(line, col) => Token::Semicolon(*line, *col),
            Token::EOF(line, col) => Token::EOF(*line, *col),
            Token::Identifier(value, line, col) => Token::Identifier(value.clone(), *line, *col),
            Token::Number(value, line, col) => Token::Number(*value, *line, *col),
            Token::StringLiteral(value, line, col) => Token::StringLiteral(
                value.clone(),
                *line,
                *col,
            ),
        }
    }
}

impl View for Token {
    type V = TokenView;

    open spec fn view(&self) -> TokenView {
        TokenView {
            kind: self.spec_kind(),
            text: self.spec_text(),
            number: self.spec_number(),
            line: self.spec_position().0 as int,
            column: self.spec_position().1 as int,
        }
    }
}

/// The views of the tokens of `tokens`, in order.
pub open spec fn token_views(tokens: Seq<Token>) -> Seq<TokenView> {
    tokens.map_values(|t: Token| t@)
}

} // verus!
