//! The tokenizer: it reads the characters of a source text and hands out its
//! tokens one by one, as the lexical rules of [`crate::lexical`] say.

use crate::constants::{is_permitted_id_character, permitted_id_characters};
use crate::lexical::{
    alphanumeric, blank_end, classify, decimal_value, digits_end, is_alphanumeric, is_blank,
    is_digit, is_id_start, lemma_blank_end_bounds, lemma_digits_end_bounds,
    lemma_end_marker_is_last, lemma_end_marker_repeats, lemma_line_end_bounds,
    lemma_quote_end_bounds, lemma_scan, lemma_skip_trivia, lemma_token_advances,
    lemma_token_lines_are_monotonic, lemma_word_end_bounds, line_end, next_token, paired_symbol,
    quote_end, scan_number, scan_string, scan_symbol, scan_word, single_symbol, skip_comment,
    skip_trivia, tokens_from, tokens_of, word_end, Cursor, LexError,
};
use crate::token::{token_views, Token, TokenType, TokenView};
use vstd::prelude::*;

verus! {

/// `String::push` appends the character to the end of the string.
pub assume_specification[ String::push ](s: &mut String, ch: char)
    ensures
        final(s)@ == old(s)@.push(ch),
;

/// A tokenizer over the characters of one source text.
pub struct Lexer {
    input: Vec<char>,
    pos: usize,
    current_line: usize,
    current_column: usize,
}

/// What a tokenizer's answer is, as plain values.
pub open spec fn token_result_view(r: Result<Token, LexError>) -> Result<TokenView, LexError> {
    match r {
        Ok(token) => Ok(token@),
        Err(error) => Err(error),
    }
}

/// What a list of tokens or a failure is, as plain values.
pub open spec fn tokens_result_view(r: Result<Vec<Token>, LexError>) -> Result<
    Seq<TokenView>,
    LexError,
> {
    match r {
        Ok(tokens) => Ok(token_views(tokens@)),
        Err(error) => Err(error),
    }
}

/// Whether `ch` is a space or a tab.
pub fn is_blank_char(ch: char) -> (r: bool)
    ensures
        r == is_blank(ch),
{
    ch == ' ' || ch == '\t'
}

/// Whether `ch` is a decimal digit.
pub fn is_digit_char(ch: char) -> (r: bool)
    ensures
        r == is_digit(ch),
{
    '0' <= ch && ch <= '9'
}

/// Whether `ch` may begin an identifier or a keyword.
pub fn is_id_start_char(ch: char) -> (r: bool)
    ensures
        r == is_id_start(ch),
{
    ('a' <= ch && ch <= 'z') || ('A' <= ch && ch <= 'Z') || ch == '_'
}

/// Whether `ch` may continue an identifier, for a character of which
/// `char::is_alphanumeric` has answered `alphanumeric`: a letter or a number
/// may, and so may each of the characters of `permitted`.
pub fn continues_identifier(ch: char, alphanumeric: bool, permitted: &Vec<char>) -> (r: bool)
    ensures
        r == (alphanumeric || permitted@.contains(ch)),
{
    if alphanumeric {
        return true;
    }
    let mut i: usize = 0;
    while i < permitted.len()
        invariant
            i <= permitted.len(),
            forall|j: int| 0 <= j < i ==> permitted@[j] != ch,
        decreases permitted.len() - i,
    {
        if permitted[i] == ch {
            return true;
        }
        i += 1;
    }
    false
}

/// Whether `ch` may continue an identifier: whether it is a letter or a
/// number, or one of the characters of `permitted`.
pub fn is_id_continue_char(ch: char, permitted: &Vec<char>) -> (r: bool)
    ensures
        r == (alphanumeric(ch) || permitted@.contains(ch)),
{
    continues_identifier(ch, is_alphanumeric(ch), permitted)
}

/// The kind of the symbol that `ch` spells alone, if it spells one.
pub fn single_symbol_kind(ch: char) -> (r: Option<TokenType>)
    ensures
        r == single_symbol(ch),
{
    if ch == '=' {
        Some(TokenType::Assing)
    } else if ch == '>' {
        Some(TokenType::Greater)
    } else if ch == '<' {
        Some(TokenType::Less)
    } else if ch == '+' {
        Some(TokenType::Plus)
    } else if ch == '-' {
        Some(TokenType::Minus)
    } else if ch == '*' {
        Some(TokenType::Star)
    } else if ch == '/' {
        Some(TokenType::Slash)
    } else if ch == '(' {
        Some(TokenType::LeftParenthesis)
    } else if ch == ')' {
        Some(TokenType::RightParenthesis)
    } else if ch == '{' {
        Some(TokenType::LeftBraces)
    } else if ch == '}' {
        Some(TokenType::RightBraces)
    } else if ch == ';' {
        Some(TokenType::Semicolon)
    } else if ch == ',' {
        Some(TokenType::Comma)
    } else {
        None
    }
}

/// The kind of the symbol that `ch` spells with a following `=`, if they spell one.
pub fn paired_symbol_kind(ch: char) -> (r: Option<TokenType>)
    ensures
        r == paired_symbol(ch),
{
    if ch == '=' {
        Some(TokenType::Equal)
    } else if ch == '!' {
        Some(TokenType::NotEqual)
    } else if ch == '>' {
        Some(TokenType::GreaterEqual)
    } else if ch == '<' {
        Some(TokenType::LessEqual)
    } else {
        None
    }
}

/// Whether the characters of `input` from `start` to `end` spell `word`.
pub fn spells(input: &Vec<char>, start: usize, end: usize, word: &str) -> (r: bool)
    requires
        start <= end <= input.len(),
    ensures
        r == (input@.subrange(start as int, end as int) == word@),
{
    let n = word.unicode_len();
    if end - start != n {
        return false;
    }
    let mut i: usize = 0;
    while i < n
        invariant
            start <= end <= input.len(),
            n == end - start,
            n == word@.len(),
            i <= n,
            forall|j: int| 0 <= j < i ==> input@[start + j] == word@[j],
        decreases n - i,
    {
        if input[start + i] != word.get_char(i) {
            assert(input@.subrange(start as int, end as int)[i as int] != word@[i as int]);
            return false;
        }
        i += 1;
    }
    assert(input@.subrange(start as int, end as int) =~= word@);
    true
}

/// The kind of the word that the characters of `input` from `start` to `end` spell.
pub fn classify_word(input: &Vec<char>, start: usize, end: usize) -> (r: TokenType)
    requires
        start <= end <= input.len(),
    ensures
        r == classify(input@.subrange(start as int, end as int)),
{
    if spells(input, start, end, "B1") || spells(input, start, end, "b1") {
        TokenType::B1
    } else if spells(input, start, end, "B2") || spells(input, start, end, "b2") {
        TokenType::B2
    } else if spells(input, start, end, "B4") || spells(input, start, end, "b4") {
        TokenType::B4
    } else if spells(input, start, end, "B8") || spells(input, start, end, "b8") {
        TokenType::B8
    } else if spells(input, start, end, "B16") || spells(input, start, end, "b16") {
        TokenType::B16
    } else if spells(input, start, end, "B32") || spells(input, start, end, "b32") {
        TokenType::B32
    } else if spells(input, start, end, "B64") || spells(input, start, end, "b64") {
        TokenType::B64
    } else if spells(input, start, end, "B128") || spells(input, start, end, "b128") {
        TokenType::B128
    } else if spells(input, start, end, "function") {
        TokenType::Function
    } else if spells(input, start, end, "if") {
        TokenType::If
    } else if spells(input, start, end, "else") {
        TokenType::Else
    } else if spells(input, start, end, "while") {
        TokenType::While
    } else if spells(input, start, end, "return") {
        TokenType::Return
    } else if spells(input, start, end, "break") {
        TokenType::Break
    } else if spells(input, start, end, "continue") {
        TokenType::Continue
    } else if spells(input, start, end, "print") {
        TokenType::Print
    } else if spells(input, start, end, "true") {
        TokenType::True
    } else if spells(input, start, end, "false") {
        TokenType::False
    } else {
        TokenType::Identifier
    }
}

/// The characters of `input` from `start` to `end`, as a string.
pub fn collect_text(input: &Vec<char>, start: usize, end: usize) -> (r: String)
    requires
        start <= end <= input.len(),
    ensures
        r@ == input@.subrange(start as int, end as int),
{
    let mut text = String::new();
    let mut i: usize = start;
    while i < end
        invariant
            start <= i <= end <= input.len(),
            text@ == input@.subrange(start as int, i as int),
        decreases end - i,
    {
        text.push(input[i]);
        assert(input@.subrange(start as int, i as int).push(input@[i as int])
            =~= input@.subrange(start as int, i + 1));
        i += 1;
    }
    text
}

/// A run of blanks is skipped as a whole.
proof fn lemma_skip_blank_run(input: Seq<char>, c: Cursor)
    requires
        0 <= c.pos <= input.len(),
    ensures
        skip_trivia(input, c) == skip_trivia(input, c.steps(blank_end(input, c.pos) - c.pos)),
    decreases input.len() - c.pos,
{
    if c.pos < input.len() && is_blank(input[c.pos]) {
        lemma_skip_blank_run(input, c.steps(1));
        assert(c.steps(1).steps(blank_end(input, c.pos + 1) - (c.pos + 1)) == c.steps(
            blank_end(input, c.pos) - c.pos,
        ));
    } else {
        assert(c.steps(0) == c);
    }
}

/// The number that a run of digits denotes grows with the run.
proof fn lemma_decimal_value_grows(input: Seq<char>, start: int, mid: int, end: int)
    requires
        0 <= start <= mid <= end <= input.len(),
        forall|i: int| start <= i < end ==> is_digit(#[trigger] input[i]),
    ensures
        0 <= decimal_value(input.subrange(start, mid)) <= decimal_value(
            input.subrange(start, end),
        ),
    decreases end - start,
{
    if start < end {
        assert(input.subrange(start, end).drop_last() =~= input.subrange(start, end - 1));
        assert(input.subrange(start, end).last() == input[end - 1]);
        if mid < end {
            lemma_decimal_value_grows(input, start, mid, end - 1);
        } else {
            lemma_decimal_value_grows(input, start, end - 1, end - 1);
        }
    } else {
        assert(input.subrange(start, mid).len() == 0);
    }
}

/// Appending a digit to a run multiplies its number by ten and adds the digit.
proof fn lemma_decimal_value_step(input: Seq<char>, start: int, end: int)
    requires
        0 <= start <= end < input.len(),
    ensures
        decimal_value(input.subrange(start, end + 1)) == decimal_value(input.subrange(start, end))
            * 10 + (input[end] as int - '0' as int),
{
    assert(input.subrange(start, end + 1).drop_last() =~= input.subrange(start, end));
    assert(input.subrange(start, end + 1).last() == input[end]);
}

impl Lexer {
    /// The characters that the tokenizer reads.
    pub closed spec fn input(&self) -> Seq<char> {
        self.input@
    }

    /// How far the tokenizer has read.
    pub closed spec fn cursor(&self) -> Cursor {
        Cursor {
            pos: self.pos as int,
            line: self.current_line as int,
            column: self.current_column as int,
        }
    }

    #[verifier::type_invariant]
    spec fn well_formed(self) -> bool {
        &&& self.input@.len() < usize::MAX
        &&& self.pos <= self.input@.len()
        &&& 1 <= self.current_line
        &&& self.current_line - 1 + self.current_column <= self.pos
    }

    /// A tokenizer at the start of `input`: nothing read, line 1, column 0.
    pub fn new(input: &str) -> (r: Self)
        requires
            input@.len() < usize::MAX,
        ensures
            r.input() == input@,
            r.cursor() == Cursor::start(),
    {
        let mut chars: Vec<char> = Vec::new();
        for ch in it: input.chars()
            invariant
                it.seq() == input@,
                chars@ == input@.take(it.index() as int),
        {
            chars.push(ch);
        }
        Lexer { input: chars, pos: 0, current_line: 1, current_column: 0 }
    }

    /// Reads the next token.
    ///
    /// Blanks, line breaks and comments before it are passed over. The token
    /// records the line and column behind its last character. At the end of the
    /// input the answer is the end marker, at every call. On a failure the
    /// tokenizer rests on the character that begins no token.
    pub fn next_token(&mut self) -> (r: Result<Token, LexError>)
        ensures
            final(self).input() == old(self).input(),
            final(self).cursor() == next_token(old(self).input(), old(self).cursor()).cursor,
            token_result_view(r) == next_token(old(self).input(), old(self).cursor()).result,
            final(self).cursor().within(final(self).input()),
            old(self).cursor().line <= final(self).cursor().line,
            old(self).cursor().pos <= final(self).cursor().pos,
            r matches Ok(token) ==> token@.line == final(self).cursor().line && token@.column
                == final(self).cursor().column,
            r matches Ok(token) && token@.kind is EOF ==> next_token(
                final(self).input(),
                final(self).cursor(),
            ) == next_token(old(self).input(), old(self).cursor()),
    {
        proof {
            use_type_invariant(&*self);
            lemma_skip_trivia(self.input@, self.cursor());
            lemma_scan(self.input@, skip_trivia(self.input@, self.cursor()));
            if next_token(self.input@, self.cursor()).result matches Ok(token) && token.kind is EOF {
                lemma_end_marker_repeats(self.input@, self.cursor());
            }
        }
        self.skip_blanks_and_comments();
        proof {
            use_type_invariant(&*self);
        }
        if self.pos >= self.input.len() {
            return Ok(Token::EOF(self.current_line, self.current_column));
        }
        let ch = self.input[self.pos];
        if is_id_start_char(ch) {
            Ok(self.lex_identifier_or_keyword())
        } else if is_digit_char(ch) {
            self.lex_number()
        } else if ch == '"' {
            Ok(self.lex_string())
        } else {
            self.lex_symbol()
        }
    }

    /// Passes over the blanks, line breaks and comments at the cursor.
    fn skip_blanks_and_comments(&mut self)
        ensures
            final(self).input@ == old(self).input@,
            final(self).cursor() == skip_trivia(old(self).input@, old(self).cursor()),
    {
        proof {
            use_type_invariant(&*self);
        }
        loop
            invariant
                self.input@ == old(self).input@,
                self.cursor().within(self.input@),
                self.input@.len() < usize::MAX,
                skip_trivia(self.input@, self.cursor()) == skip_trivia(
                    old(self).input@,
                    old(self).cursor(),
                ),
            ensures
                self.input@ == old(self).input@,
                self.cursor() == skip_trivia(old(self).input@, old(self).cursor()),
            decreases self.input@.len() - self.pos,
        {
            if self.pos >= self.input.len() {
                break;
            }
            let ch = self.input[self.pos];
            if is_blank_char(ch) {
                proof {
                    lemma_skip_blank_run(self.input@, self.cursor());
                    lemma_blank_end_bounds(self.input@, self.pos as int);
                }
                self.consume_whitespace();
            } else if ch == '\n' {
                self.consume_newline();
            } else if ch == '/' && self.pos + 1 < self.input.len() && self.input[self.pos + 1]
                == '/' {
                proof {
                    lemma_line_end_bounds(self.input@, self.pos as int);
                }
                self.consume_until_newline();
            } else {
                break;
            }
        }
    }

    /// Passes over a comment: the characters up to the next line break and the
    /// line break itself, or the rest of the input.
    fn consume_until_newline(&mut self)
        ensures
            final(self).input@ == old(self).input@,
            final(self).cursor() == skip_comment(old(self).input@, old(self).cursor()),
    {
        proof {
            use_type_invariant(&*self);
            lemma_line_end_bounds(self.input@, self.pos as int);
        }
        let start = self.pos;
        let mut end = start;
        while end < self.input.len() && self.input[end] != '\n'
            invariant
                self.input@ == old(self).input@,
                self.pos == start,
                start <= end <= self.input@.len(),
                line_end(self.input@, start as int) == line_end(self.input@, end as int),
            decreases self.input@.len() - end,
        {
            end += 1;
        }
        self.pos = end;
        self.current_column = self.current_column + (end - start);
        assert(self.cursor() == old(self).cursor().steps(end - start));
        if end < self.input.len() {
            self.consume_newline();
        }
    }

    /// Passes over the run of blanks at the cursor.
    fn consume_whitespace(&mut self)
        ensures
            final(self).input@ == old(self).input@,
            final(self).cursor() == old(self).cursor().steps(
                blank_end(old(self).input@, old(self).pos as int) - old(self).pos,
            ),
    {
        proof {
            use_type_invariant(&*self);
        }
        let start = self.pos;
        let mut end = start;
        while end < self.input.len() && is_blank_char(self.input[end])
            invariant
                self.input@ == old(self).input@,
                start <= end <= self.input@.len(),
                blank_end(self.input@, start as int) == blank_end(self.input@, end as int),
            decreases self.input@.len() - end,
        {
            end += 1;
        }
        self.pos = end;
        self.current_column = self.current_column + (end - start);
    }

    /// Passes over the line break at the cursor: the next line begins at
    /// column zero.
    fn consume_newline(&mut self)
        requires
            old(self).pos < old(self).input@.len(),
        ensures
            final(self).input@ == old(self).input@,
            final(self).cursor() == old(self).cursor().newline(),
    {
        proof {
            use_type_invariant(&*self);
        }
        self.pos = self.pos + 1;
        self.current_line = self.current_line + 1;
        self.current_column = 0;
    }

    /// Reads the keyword or identifier at the cursor.
    fn lex_identifier_or_keyword(&mut self) -> (token: Token)
        requires
            old(self).pos < old(self).input@.len(),
        ensures
            final(self).input@ == old(self).input@,
            final(self).cursor() == scan_word(old(self).input@, old(self).cursor()).cursor,
            Ok::<TokenView, LexError>(token@) == scan_word(
                old(self).input@,
                old(self).cursor(),
            ).result,
    {
        proof {
            use_type_invariant(&*self);
            lemma_word_end_bounds(self.input@, self.pos + 1);
        }
        let permitted = permitted_id_characters();
        let start = self.pos;
        let mut end = start + 1;
        while end < self.input.len() && is_id_continue_char(self.input[end], &permitted)
            invariant
                self.input@ == old(self).input@,
                start < end <= self.input@.len(),
                forall|c: char| permitted@.contains(c) <==> is_permitted_id_character(c),
                word_end(self.input@, start + 1) == word_end(self.input@, end as int),
            decreases self.input@.len() - end,
        {
            end += 1;
        }
        self.pos = end;
        self.current_column = self.current_column + (end - start);
        let kind = classify_word(&self.input, start, end);
        match kind {
            TokenType::Identifier => {
                let word = collect_text(&self.input, start, end);
                Token::Identifier(word, self.current_line, self.current_column)
            },
            _ => Token::of_kind(kind, self.current_line, self.current_column),
        }
    }

    /// Reads the string literal at the cursor.
    fn lex_string(&mut self) -> (token: Token)
        requires
            old(self).pos < old(self).input@.len(),
        ensures
            final(self).input@ == old(self).input@,
            final(self).cursor() == scan_string(old(self).input@, old(self).cursor()).cursor,
            Ok::<TokenView, LexError>(token@) == scan_string(
                old(self).input@,
                old(self).cursor(),
            ).result,
    {
        proof {
            use_type_invariant(&*self);
            lemma_quote_end_bounds(self.input@, self.pos + 1);
        }
        let start = self.pos;
        let mut close = start + 1;
        while close < self.input.len() && self.input[close] != '"'
            invariant
                self.input@ == old(self).input@,
                start < close <= self.input@.len(),
                quote_end(self.input@, start + 1) == quote_end(self.input@, close as int),
            decreases self.input@.len() - close,
        {
            close += 1;
        }
        let text = collect_text(&self.input, start + 1, close);
        let end = if close < self.input.len() {
            close + 1
        } else {
            close
        };
        self.pos = end;
        self.current_column = self.current_column + (end - start);
        Token::StringLiteral(text, self.current_line, self.current_column)
    }

    /// Reads the number at the cursor, or fails where its value is out of range.
    fn lex_number(&mut self) -> (r: Result<Token, LexError>)
        ensures
            final(self).input@ == old(self).input@,
            final(self).cursor() == scan_number(old(self).input@, old(self).cursor()).cursor,
            token_result_view(r) == scan_number(old(self).input@, old(self).cursor()).result,
    {
        proof {
            use_type_invariant(&*self);
            lemma_digits_end_bounds(self.input@, self.pos as int);
        }
        let start = self.pos;
        let mut end = start;
        let mut value: i64 = 0;
        while end < self.input.len() && is_digit_char(self.input[end])
            invariant
                self.input@ == old(self).input@,
                self.pos == start,
                self.current_line == old(self).current_line,
                self.current_column == old(self).current_column,
                start <= end <= self.input@.len(),
                digits_end(self.input@, start as int) == digits_end(self.input@, end as int),
                end <= digits_end(self.input@, start as int) <= self.input@.len(),
                forall|i: int|
                    start <= i < digits_end(self.input@, start as int) ==> is_digit(
                        #[trigger] self.input@[i],
                    ),
                0 <= value,
                value == decimal_value(self.input@.subrange(start as int, end as int)),
            decreases self.input@.len() - end,
        {
            let digit: i64 = ((self.input[end] as u32) - ('0' as u32)) as i64;
            proof {
                lemma_decimal_value_step(self.input@, start as int, end as int);
                lemma_digits_end_bounds(self.input@, end + 1);
                lemma_decimal_value_grows(
                    self.input@,
                    start as int,
                    end + 1,
                    digits_end(self.input@, start as int),
                );
            }
            let next = match value.checked_mul(10) {
                Some(tenfold) => tenfold.checked_add(digit),
                None => None,
            };
            match next {
                Some(sum) => {
                    value = sum;
                },
                None => {
                    return Err(LexError::NumberOutOfRange { line: self.current_line });
                },
            }
            end += 1;
        }
        self.pos = end;
        self.current_column = self.current_column + (end - start);
        Ok(Token::Number(value, self.current_line, self.current_column))
    }

    /// Reads the symbol at the cursor, or fails where none begins there.
    fn lex_symbol(&mut self) -> (r: Result<Token, LexError>)
        requires
            old(self).pos < old(self).input@.len(),
        ensures
            final(self).input@ == old(self).input@,
            final(self).cursor() == scan_symbol(old(self).input@, old(self).cursor()).cursor,
            token_result_view(r) == scan_symbol(old(self).input@, old(self).cursor()).result,
    {
        proof {
            use_type_invariant(&*self);
        }
        let ch = self.input[self.pos];
        let paired = self.pos + 1 < self.input.len() && self.input[self.pos + 1] == '=';
        let pair_kind = paired_symbol_kind(ch);
        let single_kind = single_symbol_kind(ch);
        if paired && pair_kind.is_some() {
            self.pos = self.pos + 2;
            self.current_column = self.current_column + 2;
            Ok(Token::of_kind(pair_kind.unwrap(), self.current_line, self.current_column))
        } else if single_kind.is_some() {
            self.pos = self.pos + 1;
            self.current_column = self.current_column + 1;
            Ok(Token::of_kind(single_kind.unwrap(), self.current_line, self.current_column))
        } else if ch == '!' {
            Err(LexError::UnexpectedAfterBang { line: self.current_line })
        } else {
            Err(LexError::UnexpectedCharacter { ch, line: self.current_line })
        }
    }
}

/// The tokens `prefix` followed by those of `rest`, or the failure of `rest`.
pub open spec fn prepend(prefix: Seq<TokenView>, rest: Result<Seq<TokenView>, LexError>) -> Result<
    Seq<TokenView>,
    LexError,
> {
    match rest {
        Ok(tokens) => Ok(prefix + tokens),
        Err(error) => Err(error),
    }
}

/// Reads all the tokens of `input`: the list ends with the end marker, which
/// stands nowhere else in it, and the lines recorded on the tokens never
/// decrease along it. The first character that begins no token ends the
/// reading with its failure.
pub fn tokenize(input: &str) -> (r: Result<Vec<Token>, LexError>)
    requires
        input@.len() < usize::MAX,
    ensures
        tokens_result_view(r) == tokens_of(input@),
        r matches Ok(tokens) ==> {
            &&& tokens@.len() >= 1
            &&& tokens@.last()@.kind is EOF
            &&& forall|i: int| 0 <= i < tokens@.len() - 1 ==> !((#[trigger] tokens@[i])@.kind is EOF)
            &&& forall|i: int| 0 <= i < tokens@.len() ==> 1 <= (#[trigger] tokens@[i])@.line
            &&& forall|i: int, j: int|
                0 <= i <= j < tokens@.len() ==> (#[trigger] tokens@[i])@.line <= (
                #[trigger] tokens@[j])@.line
        },
{
    proof {
        if tokens_of(input@) is Ok {
            lemma_end_marker_is_last(input@, Cursor::start());
            lemma_token_lines_are_monotonic(input@, Cursor::start());
            let views = tokens_of(input@)->Ok_0;
            assert forall|tokens: Seq<Token>| #[trigger] token_views(tokens) == views implies {
                &&& tokens.len() >= 1
                &&& tokens.last()@.kind is EOF
                &&& forall|i: int| 0 <= i < tokens.len() - 1 ==> !((#[trigger] tokens[i])@.kind is EOF)
                &&& forall|i: int| 0 <= i < tokens.len() ==> 1 <= (#[trigger] tokens[i])@.line
                &&& forall|i: int, j: int|
                    0 <= i <= j < tokens.len() ==> (#[trigger] tokens[i])@.line <= (
                    #[trigger] tokens[j])@.line
            } by {
                assert(tokens.len() == views.len());
                assert(tokens.last()@ == views.last());
                assert forall|i: int| 0 <= i < tokens.len() implies (#[trigger] tokens[i])@
                    == views[i] by {}
            }
        }
    }
    let mut lexer = Lexer::new(input);
    let mut tokens: Vec<Token> = Vec::new();
    assert(prepend(token_views(tokens@), tokens_from(input@, lexer.cursor())) == tokens_of(input@))
        by {
        assert(token_views(tokens@) + tokens_from(input@, lexer.cursor())->Ok_0
            =~= tokens_from(input@, lexer.cursor())->Ok_0);
    }
    loop
        invariant_except_break
            prepend(token_views(tokens@), tokens_from(input@, lexer.cursor())) == tokens_of(
                input@,
            ),
        invariant
            lexer.input() == input@,
            lexer.cursor().pos <= input@.len(),
        ensures
            tokens_result_view(Ok(tokens)) == tokens_of(input@),
        decreases input@.len() - lexer.cursor().pos,
    {
        let ghost before = lexer.cursor();
        let ghost seen = token_views(tokens@);
        proof {
            lemma_token_advances(input@, before);
        }
        let token = match lexer.next_token() {
            Ok(token) => token,
            Err(error) => {
                return Err(error);
            },
        };
        let done = token.kind() == TokenType::EOF;
        tokens.push(token);
        proof {
            assert(token_views(tokens@) =~= seen.push(token@));
            if done {
                assert(seen + seq![token@] =~= seen.push(token@));
            } else {
                let rest = tokens_from(input@, lexer.cursor());
                if rest is Ok {
                    assert(seen + (seq![token@] + rest->Ok_0) =~= seen.push(token@) + rest->Ok_0);
                }
            }
        }
        if done {
            break;
        }
    }
    Ok(tokens)
}

} // verus!
