//! The lexical rules of the language, as functions on a sequence of characters.
//!
//! A tokenizer stands at a [`Cursor`]. [`next_token`] says which token starts
//! there and where the tokenizer stands after it; [`tokens_from`] collects the
//! tokens up to the end marker.

use crate::constants::is_permitted_id_character;
use crate::token::{TokenType, TokenView};
use vstd::prelude::*;

verus! {

/// How far a tokenizer has read: the number of characters behind it, the line
/// it counts (the first line is 1) and the characters read on that line.
pub struct Cursor {
    pub pos: int,
    pub line: int,
    pub column: int,
}

impl Cursor {
    /// The cursor before any character has been read.
    pub open spec fn start() -> Cursor {
        Cursor { pos: 0, line: 1, column: 0 }
    }

    /// The cursor after `n` more characters of the current line.
    pub open spec fn steps(self, n: int) -> Cursor {
        Cursor { pos: self.pos + n, line: self.line, column: self.column + n }
    }

    /// The cursor after a line break.
    pub open spec fn newline(self) -> Cursor {
        Cursor { pos: self.pos + 1, line: self.line + 1, column: 0 }
    }

    /// Whether the cursor can be that of a tokenizer reading `input`.
    pub open spec fn within(self, input: Seq<char>) -> bool {
        &&& 0 <= self.pos <= input.len()
        &&& 1 <= self.line
        &&& 0 <= self.column
        &&& self.line - 1 + self.column <= self.pos
    }
}

/// Why no token starts at a character.
#[derive(Debug, Clone, Copy, PartialEq, Eq)]
pub enum LexError {
    /// A character that begins no token, and the line it stands on.
    UnexpectedCharacter { ch: char, line: usize },
    /// An exclamation mark that no `=` follows, and the line it stands on.
    UnexpectedAfterBang { line: usize },
    /// A run of digits whose value exceeds the largest 64-bit signed integer.
    NumberOutOfRange { line: usize },
}

/// One step of a tokenizer: where it stands afterwards and what it found.
pub struct LexStep {
    pub cursor: Cursor,
    pub result: Result<TokenView, LexError>,
}

/// What `char::is_alphanumeric` answers for `ch`.
pub uninterp spec fn alphanumeric(ch: char) -> bool;

/// Calls `char::is_alphanumeric`, which tells by the Unicode tables whether a
/// character is a letter or a number. Nothing is claimed of the answer but
/// that it depends on the character alone.
#[verifier::external_body]
pub(crate) fn is_alphanumeric(ch: char) -> (r: bool)
    ensures
        r == alphanumeric(ch),
{
    ch.is_alphanumeric()
}

/// A space or a tab.
pub open spec fn is_blank(ch: char) -> bool {
    ch == ' ' || ch == '\t'
}

/// One of the letters `a` to `z` and `A` to `Z`.
pub open spec fn is_letter(ch: char) -> bool {
    ('a' <= ch && ch <= 'z') || ('A' <= ch && ch <= 'Z')
}

/// One of the digits `0` to `9`.
pub open spec fn is_digit(ch: char) -> bool {
    '0' <= ch && ch <= '9'
}

/// A character that may begin an identifier or a keyword.
pub open spec fn is_id_start(ch: char) -> bool {
    is_letter(ch) || ch == '_'
}

/// A character that may continue an identifier or a keyword.
pub open spec fn is_id_continue(ch: char) -> bool {
    alphanumeric(ch) || is_permitted_id_character(ch)
}

/// Whether the two characters at `pos` open a comment.
pub open spec fn starts_comment(input: Seq<char>, pos: int) -> bool {
    0 <= pos && pos + 1 < input.len() && input[pos] == '/' && input[pos + 1] == '/'
}

/// The end of the run of blanks that begins at `from`.
pub open spec fn blank_end(input: Seq<char>, from: int) -> int
    decreases input.len() - from,
{
    if 0 <= from < input.len() && is_blank(input[from]) {
        blank_end(input, from + 1)
    } else {
        from
    }
}

/// The first line break at or after `from`, or the end of the input.
pub open spec fn line_end(input: Seq<char>, from: int) -> int
    decreases input.len() - from,
{
    if 0 <= from < input.len() && input[from] != '\n' {
        line_end(input, from + 1)
    } else {
        from
    }
}

/// The end of the run of identifier characters that begins at `from`.
pub open spec fn word_end(input: Seq<char>, from: int) -> int
    decreases input.len() - from,
{
    if 0 <= from < input.len() && is_id_continue(input[from]) {
        word_end(input, from + 1)
    } else {
        from
    }
}

/// The end of the run of decimal digits that begins at `from`.
pub open spec fn digits_end(input: Seq<char>, from: int) -> int
    decreases input.len() - from,
{
    if 0 <= from < input.len() && is_digit(input[from]) {
        digits_end(input, from + 1)
    } else {
        from
    }
}

/// The first double quote at or after `from`, or the end of the input.
pub open spec fn quote_end(input: Seq<char>, from: int) -> int
    decreases input.len() - from,
{
    if 0 <= from < input.len() && input[from] != '"' {
        quote_end(input, from + 1)
    } else {
        from
    }
}

/// The number that a run of decimal digits denotes.
pub open spec fn decimal_value(digits: Seq<char>) -> int
    decreases digits.len(),
{
    if digits.len() == 0 {
        0
    } else {
        decimal_value(digits.drop_last()) * 10 + (digits.last() as int - '0' as int)
    }
}

/// The cursor after a comment that begins at `c`: behind the line break that
/// ends it, or at the end of the input.
pub open spec fn skip_comment(input: Seq<char>, c: Cursor) -> Cursor {
    let end = line_end(input, c.pos);
    let at_end = c.steps(end - c.pos);
    if end < input.len() {
        at_end.newline()
    } else {
        at_end
    }
}

/// The cursor after the blanks, line breaks and comments that begin at `c`.
///
/// Blanks and the characters of a comment count as columns; a line break starts
/// the next line at column zero.
pub open spec fn skip_trivia(input: Seq<char>, c: Cursor) -> Cursor
    decreases input.len() - c.pos,
{
    if !(0 <= c.pos < input.len()) {
        c
    } else if is_blank(input[c.pos]) {
        skip_trivia(input, c.steps(1))
    } else if input[c.pos] == '\n' {
        skip_trivia(input, c.newline())
    } else if starts_comment(input, c.pos) {
        proof {
            lemma_line_end_bounds(input, c.pos);
        }
        skip_trivia(input, skip_comment(input, c))
    } else {
        c
    }
}

/// The kind of the word `word`: that of the keyword it spells, or an identifier.
///
/// The eight width keywords are spelled with either case of their letter, the
/// other keywords in lower case only.
pub open spec fn classify(word: Seq<char>) -> TokenType {
    if word == "B1"@ || word == "b1"@ {
        TokenType::B1
    } else if word == "B2"@ || word == "b2"@ {
        TokenType::B2
    } else if word == "B4"@ || word == "b4"@ {
        TokenType::B4
    } else if word == "B8"@ || word == "b8"@ {
        TokenType::B8
    } else if word == "B16"@ || word == "b16"@ {
        TokenType::B16
    } else if word == "B32"@ || word == "b32"@ {
        TokenType::B32
    } else if word == "B64"@ || word == "b64"@ {
        TokenType::B64
    } else if word == "B128"@ || word == "b128"@ {
        TokenType::B128
    } else if word == "function"@ {
        TokenType::Function
    } else if word == "if"@ {
        TokenType::If
    } else if word == "else"@ {
        TokenType::Else
    } else if word == "while"@ {
        TokenType::While
    } else if word == "return"@ {
        TokenType::Return
    } else if word == "break"@ {
        TokenType::Break
    } else if word == "continue"@ {
        TokenType::Continue
    } else if word == "print"@ {
        TokenType::Print
    } else if word == "true"@ {
        TokenType::True
    } else if word == "false"@ {
        TokenType::False
    } else {
        TokenType::Identifier
    }
}

/// The kind of the symbol that the single character `ch` spells, if it spells one.
pub open spec fn single_symbol(ch: char) -> Option<TokenType> {
    if ch == '=' {
        Some(TokenType::Assing)
    } else if ch == '>' {
        Some(TokenType::Greater)
    } else if ch == '<' {
        Some(TokenType::Less)
    } else if ch == '+' {
        Some(TokenType::Plus)
    } else if ch == '-' {
        Some(TokenType::Minus)
    } else if ch == '*' {
        Some(TokenType::Star)
    } else if ch == '/' {
        Some(TokenType::Slash)
    } else if ch == '(' {
        Some(TokenType::LeftParenthesis)
    } else if ch == ')' {
        Some(TokenType::RightParenthesis)
    } else if ch == '{' {
        Some(TokenType::LeftBraces)
    } else if ch == '}' {
        Some(TokenType::RightBraces)
    } else if ch == ';' {
        Some(TokenType::Semicolon)
    } else if ch == ',' {
        Some(TokenType::Comma)
    } else {
        None
    }
}

/// The kind of the symbol that `ch` spells together with a following `=`, if
/// they spell one.
pub open spec fn paired_symbol(ch: char) -> Option<TokenType> {
    if ch == '=' {
        Some(TokenType::Equal)
    } else if ch == '!' {
        Some(TokenType::NotEqual)
    } else if ch == '>' {
        Some(TokenType::GreaterEqual)
    } else if ch == '<' {
        Some(TokenType::LessEqual)
    } else {
        None
    }
}

/// A token without payload that ends `n` characters after `c`.
pub open spec fn symbol_step(c: Cursor, n: int, kind: TokenType) -> LexStep {
    let end = c.steps(n);
    LexStep { cursor: end, result: Ok(TokenView::plain(kind, end.line, end.column)) }
}

/// A failure at `c`: the tokenizer stays where it is.
pub open spec fn error_step(c: Cursor, error: LexError) -> LexStep {
    LexStep { cursor: c, result: Err(error) }
}

/// The keyword or identifier that begins at `c`, where an identifier may begin.
pub open spec fn scan_word(input: Seq<char>, c: Cursor) -> LexStep {
    let end = word_end(input, c.pos + 1);
    let word = input.subrange(c.pos, end);
    let after = c.steps(end - c.pos);
    let kind = classify(word);
    if kind is Identifier {
        LexStep {
            cursor: after,
            result: Ok(
                TokenView {
                    kind: TokenType::Identifier,
                    text: word,
                    number: 0,
                    line: after.line,
                    column: after.column,
                },
            ),
        }
    } else {
        symbol_step(c, end - c.pos, kind)
    }
}

/// The number that begins at `c`, where a digit stands.
pub open spec fn scan_number(input: Seq<char>, c: Cursor) -> LexStep {
    let end = digits_end(input, c.pos);
    let value = decimal_value(input.subrange(c.pos, end));
    let after = c.steps(end - c.pos);
    if value <= i64::MAX {
        LexStep {
            cursor: after,
            result: Ok(
                TokenView {
                    kind: TokenType::Number,
                    text: Seq::empty(),
                    number: value as i64,
                    line: after.line,
                    column: after.column,
                },
            ),
        }
    } else {
        error_step(c, LexError::NumberOutOfRange { line: c.line as usize })
    }
}

/// The string literal that begins at `c`, where a double quote stands. It ends
/// with the next double quote, or with the input; its text is what stands
/// between, unchanged.
pub open spec fn scan_string(input: Seq<char>, c: Cursor) -> LexStep {
    let close = quote_end(input, c.pos + 1);
    let end = if close < input.len() {
        close + 1
    } else {
        close
    };
    let after = c.steps(end - c.pos);
    LexStep {
        cursor: after,
        result: Ok(
            TokenView {
                kind: TokenType::StringLiteral,
                text: input.subrange(c.pos + 1, close),
                number: 0,
                line: after.line,
                column: after.column,
            },
        ),
    }
}

/// The symbol that begins at `c`, or the failure if none does.
pub open spec fn scan_symbol(input: Seq<char>, c: Cursor) -> LexStep {
    let ch = input[c.pos];
    let paired = c.pos + 1 < input.len() && input[c.pos + 1] == '=';
    if paired && paired_symbol(ch) is Some {
        symbol_step(c, 2, paired_symbol(ch)->0)
    } else if single_symbol(ch) is Some {
        symbol_step(c, 1, single_symbol(ch)->0)
    } else if ch == '!' {
        error_step(c, LexError::UnexpectedAfterBang { line: c.line as usize })
    } else {
        error_step(c, LexError::UnexpectedCharacter { ch, line: c.line as usize })
    }
}

/// The token that begins at `c`, where no blank, line break or comment begins.
/// At the end of the input it is the end marker, and the cursor stays.
pub open spec fn scan(input: Seq<char>, c: Cursor) -> LexStep {
    if !(0 <= c.pos < input.len()) {
        symbol_step(c, 0, TokenType::EOF)
    } else if is_id_start(input[c.pos]) {
        scan_word(input, c)
    } else if is_digit(input[c.pos]) {
        scan_number(input, c)
    } else if input[c.pos] == '"' {
        scan_string(input, c)
    } else {
        scan_symbol(input, c)
    }
}

/// The next token of `input` for a tokenizer at `c`.
///
/// The position recorded on the token is that of the cursor behind it. On a
/// failure the cursor rests on the character that begins no token.
pub open spec fn next_token(input: Seq<char>, c: Cursor) -> LexStep {
    scan(input, skip_trivia(input, c))
}

/// The tokens of `input` from `c` on, the end marker last, or the first failure.
pub open spec fn tokens_from(input: Seq<char>, c: Cursor) -> Result<Seq<TokenView>, LexError>
    decreases input.len() - c.pos,
{
    let step = next_token(input, c);
    match step.result {
        Err(error) => Err(error),
        Ok(token) => {
            if token.kind is EOF {
                Ok(seq![token])
            } else {
                proof {
                    lemma_token_advances(input, c);
                }
                match tokens_from(input, step.cursor) {
                    Err(error) => Err(error),
                    Ok(rest) => Ok(seq![token] + rest),
                }
            }
        },
    }
}

/// The tokens of `input`, the end marker last, or the first failure.
pub open spec fn tokens_of(input: Seq<char>) -> Result<Seq<TokenView>, LexError> {
    tokens_from(input, Cursor::start())
}

/// The width keyword that the letter `B`, in either case, spells with `digits`.
pub open spec fn width_of(digits: Seq<char>) -> Option<TokenType> {
    if digits == seq!['1'] {
        Some(TokenType::B1)
    } else if digits == seq!['2'] {
        Some(TokenType::B2)
    } else if digits == seq!['4'] {
        Some(TokenType::B4)
    } else if digits == seq!['8'] {
        Some(TokenType::B8)
    } else if digits == seq!['1', '6'] {
        Some(TokenType::B16)
    } else if digits == seq!['3', '2'] {
        Some(TokenType::B32)
    } else if digits == seq!['6', '4'] {
        Some(TokenType::B64)
    } else if digits == seq!['1', '2', '8'] {
        Some(TokenType::B128)
    } else {
        None
    }
}

/// A run of blanks ends among the characters, at the first that is no blank.
pub proof fn lemma_blank_end_bounds(input: Seq<char>, from: int)
    requires
        0 <= from <= input.len(),
    ensures
        from <= blank_end(input, from) <= input.len(),
        forall|i: int| from <= i < blank_end(input, from) ==> is_blank(#[trigger] input[i]),
        blank_end(input, from) < input.len() ==> !is_blank(input[blank_end(input, from)]),
    decreases input.len() - from,
{
    if from < input.len() && is_blank(input[from]) {
        lemma_blank_end_bounds(input, from + 1);
    }
}

/// A line ends among the characters, at the first line break.
pub proof fn lemma_line_end_bounds(input: Seq<char>, from: int)
    requires
        0 <= from <= input.len(),
    ensures
        from <= line_end(input, from) <= input.len(),
        forall|i: int| from <= i < line_end(input, from) ==> #[trigger] input[i] != '\n',
        line_end(input, from) < input.len() ==> input[line_end(input, from)] == '\n',
    decreases input.len() - from,
{
    if from < input.len() && input[from] != '\n' {
        lemma_line_end_bounds(input, from + 1);
    }
}

/// A run of identifier characters ends among the characters, at the first
/// that continues no identifier.
pub proof fn lemma_word_end_bounds(input: Seq<char>, from: int)
    requires
        0 <= from <= input.len(),
    ensures
        from <= word_end(input, from) <= input.len(),
        forall|i: int| from <= i < word_end(input, from) ==> is_id_continue(#[trigger] input[i]),
        word_end(input, from) < input.len() ==> !is_id_continue(input[word_end(input, from)]),
    decreases input.len() - from,
{
    if from < input.len() && is_id_continue(input[from]) {
        lemma_word_end_bounds(input, from + 1);
    }
}

/// A run of digits ends among the characters, at the first that is no digit.
pub proof fn lemma_digits_end_bounds(input: Seq<char>, from: int)
    requires
        0 <= from <= input.len(),
    ensures
        from <= digits_end(input, from) <= input.len(),
        forall|i: int| from <= i < digits_end(input, from) ==> is_digit(#[trigger] input[i]),
        digits_end(input, from) < input.len() ==> !is_digit(input[digits_end(input, from)]),
    decreases input.len() - from,
{
    if from < input.len() && is_digit(input[from]) {
        lemma_digits_end_bounds(input, from + 1);
    }
}

/// The text of a string literal ends among the characters, at the first
/// double quote.
pub proof fn lemma_quote_end_bounds(input: Seq<char>, from: int)
    requires
        0 <= from <= input.len(),
    ensures
        from <= quote_end(input, from) <= input.len(),
        forall|i: int| from <= i < quote_end(input, from) ==> #[trigger] input[i] != '"',
        quote_end(input, from) < input.len() ==> input[quote_end(input, from)] == '"',
    decreases input.len() - from,
{
    if from < input.len() && input[from] != '"' {
        lemma_quote_end_bounds(input, from + 1);
    }
}

/// Skipping keeps a cursor within the input and never goes back, neither in
/// characters nor in lines; behind it no blank, line break or comment begins.
pub proof fn lemma_skip_trivia(input: Seq<char>, c: Cursor)
    requires
        c.within(input),
    ensures
        skip_trivia(input, c).within(input),
        c.pos <= skip_trivia(input, c).pos,
        c.line <= skip_trivia(input, c).line,
        skip_trivia(input, skip_trivia(input, c)) == skip_trivia(input, c),
        ({
            let s = skip_trivia(input, c);
            s.pos < input.len() ==> !is_blank(input[s.pos]) && input[s.pos] != '\n'
                && !starts_comment(input, s.pos)
        }),
    decreases input.len() - c.pos,
{
    if c.pos < input.len() {
        if is_blank(input[c.pos]) {
            lemma_skip_trivia(input, c.steps(1));
        } else if input[c.pos] == '\n' {
            lemma_skip_trivia(input, c.newline());
        } else if starts_comment(input, c.pos) {
            lemma_line_end_bounds(input, c.pos);
            lemma_skip_trivia(input, skip_comment(input, c));
        }
    }
}

/// A token ends within the input, on the line where it begins, and behind the
/// place where it begins unless it is the end marker.
pub proof fn lemma_scan(input: Seq<char>, c: Cursor)
    requires
        c.within(input),
    ensures
        scan(input, c).cursor.within(input),
        scan(input, c).cursor.line == c.line,
        c.pos <= scan(input, c).cursor.pos,
        scan(input, c).result matches Ok(token) ==> {
            &&& token.line == scan(input, c).cursor.line
            &&& token.column == scan(input, c).cursor.column
            &&& (token.kind is EOF <==> c.pos == input.len())
            &&& (token.kind is EOF ==> scan(input, c).cursor == c)
            &&& (!(token.kind is EOF) ==> c.pos < scan(input, c).cursor.pos)
        },
        scan(input, c).result is Err ==> scan(input, c).cursor == c && c.pos < input.len(),
{
    if c.pos < input.len() {
        if is_id_start(input[c.pos]) {
            lemma_word_end_bounds(input, c.pos + 1);
        } else if is_digit(input[c.pos]) {
            lemma_digits_end_bounds(input, c.pos);
        } else if input[c.pos] == '"' {
            lemma_quote_end_bounds(input, c.pos + 1);
        }
    }
}

/// A token other than the end marker moves the tokenizer forward.
pub proof fn lemma_token_advances(input: Seq<char>, c: Cursor)
    ensures
        next_token(input, c).result matches Ok(token) ==> token.kind is EOF || c.pos < next_token(
            input,
            c,
        ).cursor.pos <= input.len(),
{
    lemma_skip_forward(input, c);
    let s = skip_trivia(input, c);
    if 0 <= s.pos < input.len() {
        if is_id_start(input[s.pos]) {
            lemma_word_end_bounds(input, s.pos + 1);
        } else if is_digit(input[s.pos]) {
            lemma_digits_end_bounds(input, s.pos);
        } else if input[s.pos] == '"' {
            lemma_quote_end_bounds(input, s.pos + 1);
        }
    }
}

/// Skipping never goes back, wherever the cursor stands.
pub proof fn lemma_skip_forward(input: Seq<char>, c: Cursor)
    ensures
        c.pos <= skip_trivia(input, c).pos,
        c.pos <= input.len() ==> skip_trivia(input, c).pos <= input.len(),
    decreases input.len() - c.pos,
{
    if 0 <= c.pos < input.len() {
        if is_blank(input[c.pos]) {
            lemma_skip_forward(input, c.steps(1));
        } else if input[c.pos] == '\n' {
            lemma_skip_forward(input, c.newline());
        } else if starts_comment(input, c.pos) {
            lemma_line_end_bounds(input, c.pos);
            lemma_skip_forward(input, skip_comment(input, c));
        }
    }
}

/// Once the end marker has been handed out, every further step hands out the
/// same end marker and leaves the tokenizer where it stands.
pub proof fn lemma_end_marker_repeats(input: Seq<char>, c: Cursor)
    requires
        next_token(input, c).result matches Ok(token) && token.kind is EOF,
    ensures
        next_token(input, next_token(input, c).cursor) == next_token(input, c),
{
    lemma_skip_forward(input, c);
    let s = skip_trivia(input, c);
    if 0 <= s.pos < input.len() {
        reveal_keywords();
        if is_id_start(input[s.pos]) {
            lemma_word_end_bounds(input, s.pos + 1);
        } else if is_digit(input[s.pos]) {
            lemma_digits_end_bounds(input, s.pos);
        } else if input[s.pos] == '"' {
            lemma_quote_end_bounds(input, s.pos + 1);
        }
    }
}

/// A step never lowers the line, and the token it hands out records the line
/// and the column at which the tokenizer then stands.
pub proof fn lemma_lines_never_decrease(input: Seq<char>, c: Cursor)
    requires
        c.within(input),
    ensures
        c.line <= next_token(input, c).cursor.line,
        next_token(input, c).cursor.within(input),
        next_token(input, c).result matches Ok(token) ==> token.line == next_token(
            input,
            c,
        ).cursor.line && token.column == next_token(input, c).cursor.column,
{
    lemma_skip_trivia(input, c);
    lemma_scan(input, skip_trivia(input, c));
}

/// The lines recorded on the tokens of a text never decrease along the
/// sequence, and none is lower than the line at which the tokenizer began.
pub proof fn lemma_token_lines_are_monotonic(input: Seq<char>, c: Cursor)
    requires
        c.within(input),
        tokens_from(input, c) is Ok,
    ensures
        forall|i: int|
            0 <= i < tokens_from(input, c)->Ok_0.len() ==> c.line <= (#[trigger] tokens_from(
                input,
                c,
            )->Ok_0[i]).line,
        forall|i: int, j: int|
            0 <= i <= j < tokens_from(input, c)->Ok_0.len() ==> (#[trigger] tokens_from(
                input,
                c,
            )->Ok_0[i]).line <= (#[trigger] tokens_from(input, c)->Ok_0[j]).line,
    decreases input.len() - c.pos,
{
    let step = next_token(input, c);
    lemma_lines_never_decrease(input, c);
    lemma_token_advances(input, c);
    let token = step.result->Ok_0;
    if !(token.kind is EOF) {
        lemma_token_lines_are_monotonic(input, step.cursor);
        let rest = tokens_from(input, step.cursor)->Ok_0;
        let all = tokens_from(input, c)->Ok_0;
        assert(all == seq![token] + rest);
        assert forall|i: int| 0 <= i < all.len() implies c.line <= (#[trigger] all[i]).line by {
            if i > 0 {
                assert(all[i] == rest[i - 1]);
            }
        }
        assert forall|i: int, j: int| 0 <= i <= j < all.len() implies (#[trigger] all[i]).line <= (
        #[trigger] all[j]).line by {
            if i > 0 {
                assert(all[i] == rest[i - 1]);
                assert(all[j] == rest[j - 1]);
            } else if j > 0 {
                assert(all[j] == rest[j - 1]);
            }
        }
    }
}

/// A line break between tokens starts the next line at column zero: the
/// tokenizer goes on as one that stands behind the break, one line further,
/// with no character read on that line.
pub proof fn lemma_line_break_resets_column(input: Seq<char>, c: Cursor)
    requires
        0 <= c.pos < input.len(),
        input[c.pos] == '\n',
    ensures
        next_token(input, c) == next_token(
            input,
            Cursor { pos: c.pos + 1, line: c.line + 1, column: 0 },
        ),
{
}

/// The tokens of a text end with the end marker, and no token before the last
/// is one.
pub proof fn lemma_end_marker_is_last(input: Seq<char>, c: Cursor)
    requires
        tokens_from(input, c) is Ok,
    ensures
        tokens_from(input, c)->Ok_0.len() >= 1,
        tokens_from(input, c)->Ok_0.last().kind is EOF,
        forall|i: int|
            0 <= i < tokens_from(input, c)->Ok_0.len() - 1 ==> !((#[trigger] tokens_from(
                input,
                c,
            )->Ok_0[i]).kind is EOF),
    decreases input.len() - c.pos,
{
    let step = next_token(input, c);
    lemma_token_advances(input, c);
    let token = step.result->Ok_0;
    if !(token.kind is EOF) {
        lemma_end_marker_is_last(input, step.cursor);
        let rest = tokens_from(input, step.cursor)->Ok_0;
        let all = tokens_from(input, c)->Ok_0;
        assert(all == seq![token] + rest);
        assert(all.last() == rest.last());
        assert forall|i: int| 0 <= i < all.len() - 1 implies !((#[trigger] all[i]).kind is EOF) by {
            if i > 0 {
                assert(all[i] == rest[i - 1]);
            }
        }
    }
}

/// What the keywords' spellings are, character by character.
pub proof fn reveal_keywords()
    ensures
        "B1"@ == seq!['B', '1'],
        "b1"@ == seq!['b', '1'],
        "B2"@ == seq!['B', '2'],
        "b2"@ == seq!['b', '2'],
        "B4"@ == seq!['B', '4'],
        "b4"@ == seq!['b', '4'],
        "B8"@ == seq!['B', '8'],
        "b8"@ == seq!['b', '8'],
        "B16"@ == seq!['B', '1', '6'],
        "b16"@ == seq!['b', '1', '6'],
        "B32"@ == seq!['B', '3', '2'],
        "b32"@ == seq!['b', '3', '2'],
        "B64"@ == seq!['B', '6', '4'],
        "b64"@ == seq!['b', '6', '4'],
        "B128"@ == seq!['B', '1', '2', '8'],
        "b128"@ == seq!['b', '1', '2', '8'],
        "function"@ == seq!['f', 'u', 'n', 'c', 't', 'i', 'o', 'n'],
        "if"@ == seq!['i', 'f'],
        "else"@ == seq!['e', 'l', 's', 'e'],
        "while"@ == seq!['w', 'h', 'i', 'l', 'e'],
        "return"@ == seq!['r', 'e', 't', 'u', 'r', 'n'],
        "break"@ == seq!['b', 'r', 'e', 'a', 'k'],
        "continue"@ == seq!['c', 'o', 'n', 't', 'i', 'n', 'u', 'e'],
        "print"@ == seq!['p', 'r', 'i', 'n', 't'],
        "true"@ == seq!['t', 'r', 'u', 'e'],
        "false"@ == seq!['f', 'a', 'l', 's', 'e'],
{
    reveal_strlit("B1");
    reveal_strlit("b1");
    reveal_strlit("B2");
    reveal_strlit("b2");
    reveal_strlit("B4");
    reveal_strlit("b4");
    reveal_strlit("B8");
    reveal_strlit("b8");
    reveal_strlit("B16");
    reveal_strlit("b16");
    reveal_strlit("B32");
    reveal_strlit("b32");
    reveal_strlit("B64");
    reveal_strlit("b64");
    reveal_strlit("B128");
    reveal_strlit("b128");
    reveal_strlit("function");
    reveal_strlit("if");
    reveal_strlit("else");
    reveal_strlit("while");
    reveal_strlit("return");
    reveal_strlit("break");
    reveal_strlit("continue");
    reveal_strlit("print");
    reveal_strlit("true");
    reveal_strlit("false");
    assert("B1"@ =~= seq!['B', '1']);
    assert("b1"@ =~= seq!['b', '1']);
    assert("B2"@ =~= seq!['B', '2']);
    assert("b2"@ =~= seq!['b', '2']);
    assert("B4"@ =~= seq!['B', '4']);
    assert("b4"@ =~= seq!['b', '4']);
    assert("B8"@ =~= seq!['B', '8']);
    assert("b8"@ =~= seq!['b', '8']);
    assert("B16"@ =~= seq!['B', '1', '6']);
    assert("b16"@ =~= seq!['b', '1', '6']);
    assert("B32"@ =~= seq!['B', '3', '2']);
    assert("b32"@ =~= seq!['b', '3', '2']);
    assert("B64"@ =~= seq!['B', '6', '4']);
    assert("b64"@ =~= seq!['b', '6', '4']);
    assert("B128"@ =~= seq!['B', '1', '2', '8']);
    assert("b128"@ =~= seq!['b', '1', '2', '8']);
    assert("function"@ =~= seq!['f', 'u', 'n', 'c', 't', 'i', 'o', 'n']);
    assert("if"@ =~= seq!['i', 'f']);
    assert("else"@ =~= seq!['e', 'l', 's', 'e']);
    assert("while"@ =~= seq!['w', 'h', 'i', 'l', 'e']);
    assert("return"@ =~= seq!['r', 'e', 't', 'u', 'r', 'n']);
    assert("break"@ =~= seq!['b', 'r', 'e', 'a', 'k']);
    assert("continue"@ =~= seq!['c', 'o', 'n', 't', 'i', 'n', 'u', 'e']);
    assert("print"@ =~= seq!['p', 'r', 'i', 'n', 't']);
    assert("true"@ =~= seq!['t', 'r', 'u', 'e']);
    assert("false"@ =~= seq!['f', 'a', 'l', 's', 'e']);
}

/// The letter of a width keyword may stand in either case: `B` and `b`,
/// followed by the digits of one of the eight widths, spell the same keyword.
pub proof fn lemma_width_keywords_ignore_case(digits: Seq<char>)
    requires
        width_of(digits) is Some,
    ensures
        classify(seq!['B'] + digits) == width_of(digits)->0,
        classify(seq!['b'] + digits) == width_of(digits)->0,
{
    reveal_keywords();
    let upper = seq!['B'] + digits;
    let lower = seq!['b'] + digits;
    assert(upper.len() == digits.len() + 1 && lower.len() == digits.len() + 1);
    assert(upper[0] == 'B' && lower[0] == 'b');
    assert(forall|i: int| 0 <= i < digits.len() ==> upper[i + 1] == digits[i]);
    assert(forall|i: int| 0 <= i < digits.len() ==> lower[i + 1] == digits[i]);
    if digits == seq!['1'] {
        assert(upper =~= seq!['B', '1'] && lower =~= seq!['b', '1']);
    } else if digits == seq!['2'] {
        assert(upper =~= seq!['B', '2'] && lower =~= seq!['b', '2']);
    } else if digits == seq!['4'] {
        assert(upper =~= seq!['B', '4'] && lower =~= seq!['b', '4']);
    } else if digits == seq!['8'] {
        assert(upper =~= seq!['B', '8'] && lower =~= seq!['b', '8']);
    } else if digits == seq!['1', '6'] {
        assert(upper =~= seq!['B', '1', '6'] && lower =~= seq!['b', '1', '6']);
    } else if digits == seq!['3', '2'] {
        assert(upper =~= seq!['B', '3', '2'] && lower =~= seq!['b', '3', '2']);
    } else if digits == seq!['6', '4'] {
        assert(upper =~= seq!['B', '6', '4'] && lower =~= seq!['b', '6', '4']);
    } else {
        assert(upper =~= seq!['B', '1', '2', '8'] && lower =~= seq!['b', '1', '2', '8']);
    }
}

/// A word that begins with `B` or `b` and a digit is a keyword only where what
/// follows the letter is exactly one of the eight widths: with anything more,
/// or anything else, behind the letter it is an identifier.
pub proof fn lemma_inexact_width_is_identifier(letter: char, rest: Seq<char>)
    requires
        letter == 'B' || letter == 'b',
        rest.len() > 0,
        is_digit(rest[0]),
        width_of(rest) is None,
    ensures
        classify(seq![letter] + rest) is Identifier,
{
    reveal_keywords();
    let word = seq![letter] + rest;
    assert(word.len() == rest.len() + 1);
    assert(word[0] == letter);
    assert(word[1] == rest[0]);
    assert(forall|i: int| 0 <= i < rest.len() ==> word[i + 1] == rest[i]);
    if word.len() == 2 {
        assert(rest =~= seq![word[1]]);
    } else if word.len() == 3 {
        assert(rest =~= seq![word[1], word[2]]);
    } else if word.len() == 4 {
        assert(rest =~= seq![word[1], word[2], word[3]]);
    }
}

} // verus!
