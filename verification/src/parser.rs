//! The parser: it walks a list of tokens by recursive descent, one function
//! for each production of [`crate::grammar`], and keeps the declaration table.
//! It stops at the first token that the grammar or the declaration rule
//! refuses.

use crate::grammar::{
    accept, arg_list, assign_or_call, at, block, break_stmt, call_tail, condition, continue_stmt,
    declared, declared_as, declared_name, expect, expression, factor, func_decl, if_stmt, kind_at,
    lemma_arg_list_bounds, lemma_block_advances, lemma_condition_advances,
    lemma_expression_advances, lemma_factor_advances, lemma_param_list_bounds,
    lemma_statement_advances, lemma_term_advances, more_args, more_params, param_list, print_stmt,
    program, return_stmt, statement, statements, term, var_decl, while_stmt, width_at, Declaration,
    ErrorKind, Failure, Nesting, Outcome,
};
use crate::token::{token_views, Token, TokenType, TokenView};
use vstd::prelude::*;

verus! {

/// An entry of the declaration table: a name and the kind it was declared with.
pub struct Symbol {
    pub id: String,
    pub tp: TokenType,
}

impl View for Symbol {
    type V = Declaration;

    open spec fn view(&self) -> Declaration {
        Declaration { name: self.id@, kind: self.tp }
    }
}

/// The declarations that the entries of `table` stand for, in order.
pub open spec fn declarations(table: Seq<Symbol>) -> Seq<Declaration> {
    table.map_values(|s: Symbol| s@)
}

/// Why a list of tokens was refused.
#[derive(Debug, PartialEq)]
pub struct ParseError {
    /// The way of the refusal.
    pub kind: ErrorKind,
    /// The kind of token that the production asked for, where it asked for one.
    pub expected: Option<TokenType>,
    /// The token that the parser stopped at; none where the tokens had run out.
    pub found: Option<Token>,
}

/// The error of a production that stopped at `pos` with `failure`.
pub open spec fn error_at(tokens: Seq<Token>, pos: int, failure: Failure) -> ParseError {
    ParseError {
        kind: failure.kind,
        expected: failure.expected,
        found: if 0 <= pos < tokens.len() {
            Some(tokens[pos])
        } else {
            None
        },
    }
}

/// What a parsing function answers for the outcome `o` of its production.
pub open spec fn result_of(tokens: Seq<Token>, o: Outcome) -> Result<(), ParseError> {
    match o.failure {
        None => Ok(()),
        Some(failure) => Err(error_at(tokens, o.pos, failure)),
    }
}

/// What is left of an expression behind one of its terms.
pub open spec fn expression_rest(tokens: Seq<TokenView>, pos: int, table: Seq<Declaration>)
    -> Outcome {
    if at(tokens, pos, TokenType::Plus) || at(tokens, pos, TokenType::Minus) {
        expression(tokens, pos + 1, table)
    } else {
        accept(pos, table)
    }
}

/// What is left of a term behind one of its factors.
pub open spec fn term_rest(tokens: Seq<TokenView>, pos: int, table: Seq<Declaration>) -> Outcome {
    if at(tokens, pos, TokenType::Star) || at(tokens, pos, TokenType::Slash) {
        term(tokens, pos + 1, table)
    } else {
        accept(pos, table)
    }
}

/// A parser over a list of tokens.
pub struct Parser<'a> {
    tokens: &'a Vec<Token>,
    pos: usize,
    within_loop: bool,
    within_function: bool,
    symbol_table: Vec<Symbol>,
}

impl<'a> Parser<'a> {
    /// The tokens that the parser walks.
    pub closed spec fn tokens(&self) -> Seq<Token> {
        self.tokens@
    }

    /// The tokens that the parser walks, as plain values.
    pub open spec fn views(&self) -> Seq<TokenView> {
        token_views(self.tokens())
    }

    /// The number of tokens behind the parser.
    pub closed spec fn position(&self) -> int {
        self.pos as int
    }

    /// The declarations made so far, oldest first.
    pub closed spec fn table(&self) -> Seq<Declaration> {
        declarations(self.symbol_table@)
    }

    /// Whether the parser stands inside a loop, and inside a function.
    pub closed spec fn nesting(&self) -> Nesting {
        Nesting { within_loop: self.within_loop, within_function: self.within_function }
    }

    /// Whether the parser, having been `before`, stands as the outcome `o` of
    /// a production says, and `r` is the answer for that outcome. The tokens
    /// and the nesting are those of `before`.
    pub open spec fn ended_as(self, before: Self, o: Outcome, r: Result<(), ParseError>) -> bool {
        &&& self.tokens() == before.tokens()
        &&& self.nesting() == before.nesting()
        &&& self.position() == o.pos
        &&& self.table() == o.table
        &&& r == result_of(before.tokens(), o)
    }

    /// A parser before the first of `tokens`, outside every loop and function,
    /// with no declaration made.
    pub fn new(tokens: &'a Vec<Token>) -> (r: Self)
        ensures
            r.tokens() == tokens@,
            r.position() == 0,
            r.table() == Seq::<Declaration>::empty(),
            r.nesting() == Nesting::top(),
    {
        let r = Parser {
            tokens,
            pos: 0,
            within_loop: false,
            within_function: false,
            symbol_table: Vec::new(),
        };
        assert(declarations(r.symbol_table@) =~= Seq::<Declaration>::empty());
        r
    }

    /// Checks the tokens from the parser's place up to the end marker against
    /// the grammar and the declaration rule.
    ///
    /// On success the parser stands at the end marker and its table holds
    /// every declaration of the program. The first token that is refused
    /// ends the walk: the parser stays at that token, and the error tells
    /// the way of the refusal and holds the token.
    pub fn parse(&mut self) -> (r: Result<(), ParseError>)
        ensures
            final(self).ended_as(
                *old(self),
                program(
                    old(self).views(),
                    old(self).position(),
                    old(self).table(),
                    old(self).nesting(),
                ),
                r,
            ),
    {
        self.parse_statements(TokenType::EOF)
    }

    /// The token at the parser's place, if there is one.
    pub fn peek(&self) -> (r: Option<&'a Token>)
        ensures
            0 <= self.position() < self.tokens().len() ==> r == Some(
                &self.tokens()[self.position()],
            ),
            !(0 <= self.position() < self.tokens().len()) ==> r is None,
    {
        if self.pos < self.tokens.len() {
            Some(&self.tokens[self.pos])
        } else {
            None
        }
    }

    /// The kind of the token at the parser's place, if there is one.
    pub fn peek_kind(&self) -> (r: Option<TokenType>)
        ensures
            r == kind_at(self.views(), self.position()),
    {
        if self.pos < self.tokens.len() {
            Some(self.tokens[self.pos].kind())
        } else {
            None
        }
    }

    /// Whether a token of kind `kind` stands at the parser's place.
    pub fn at_kind(&self, kind: TokenType) -> (r: bool)
        ensures
            r == at(self.views(), self.position(), kind),
    {
        match self.peek_kind() {
            Some(found) => found == kind,
            None => false,
        }
    }

    /// Whether a width keyword stands at the parser's place.
    pub fn at_width(&self) -> (r: bool)
        ensures
            r == width_at(self.views(), self.position()),
    {
        match self.peek_kind() {
            Some(found) => found.is_width_keyword(),
            None => false,
        }
    }

    /// Goes on to the next token.
    fn advance(&mut self)
        requires
            old(self).pos < old(self).tokens@.len(),
        ensures
            final(self).tokens() == old(self).tokens(),
            final(self).nesting() == old(self).nesting(),
            final(self).table() == old(self).table(),
            final(self).position() == old(self).position() + 1,
    {
        let len = self.tokens.len();
        assert(self.pos < len);
        self.pos = self.pos + 1;
    }

    /// Adds a declaration to the table.
    fn declare(&mut self, id: String, tp: TokenType)
        ensures
            final(self).tokens() == old(self).tokens(),
            final(self).nesting() == old(self).nesting(),
            final(self).position() == old(self).position(),
            final(self).table() == old(self).table().push(Declaration { name: id@, kind: tp }),
    {
        let ghost name = id@;
        self.symbol_table.push(Symbol { id, tp });
        assert(declarations(self.symbol_table@) =~= declarations(old(self).symbol_table@).push(
            Declaration { name, kind: tp },
        ));
    }

    /// The error for a refusal of the token at the parser's place.
    pub fn report_error(&self, kind: ErrorKind, expected: Option<TokenType>) -> (r: ParseError)
        ensures
            r == error_at(self.tokens(), self.position(), Failure { kind, expected }),
    {
        let found = match self.peek() {
            Some(token) => Some(token.clone()),
            None => None,
        };
        ParseError { kind, expected, found }
    }

    /// Reads one token of kind `expected`.
    pub fn expect(&mut self, expected: TokenType) -> (r: Result<(), ParseError>)
        ensures
            final(self).ended_as(
                *old(self),
                expect(old(self).views(), old(self).position(), old(self).table(), expected),
                r,
            ),
    {
        if self.at_kind(expected) {
            self.advance();
            Ok(())
        } else {
            Err(self.report_error(ErrorKind::Syntax, Some(expected)))
        }
    }

    /// Whether `identifier` has been declared.
    pub fn symbol_table_contains(&self, identifier: &str) -> (r: bool)
        ensures
            r == declared(self.table(), identifier@),
    {
        let name = String::from_str(identifier);
        self.holds_name(&name)
    }

    /// Whether `identifier` has been declared with the kind `tp`.
    pub fn check_symbol_table_for_type(&self, identifier: &str, tp: TokenType) -> (r: bool)
        ensures
            r == declared_as(self.table(), identifier@, tp),
    {
        let name = String::from_str(identifier);
        self.holds_name_as(&name, tp)
    }

    /// Whether the table holds an entry of the name `name`.
    fn holds_name(&self, name: &String) -> (r: bool)
        ensures
            r == declared(self.table(), name@),
    {
        let mut i: usize = 0;
        while i < self.symbol_table.len()
            invariant
                i <= self.symbol_table@.len(),
                forall|j: int| 0 <= j < i ==> (#[trigger] self.table()[j]).name != name@,
            decreases self.symbol_table@.len() - i,
        {
            if self.symbol_table[i].id == *name {
                assert(self.table()[i as int].name == name@);
                return true;
            }
            i += 1;
        }
        false
    }

    /// Whether the table holds an entry of the name `name` and the kind `tp`.
    fn holds_name_as(&self, name: &String, tp: TokenType) -> (r: bool)
        ensures
            r == declared_as(self.table(), name@, tp),
    {
        let mut i: usize = 0;
        while i < self.symbol_table.len()
            invariant
                i <= self.symbol_table@.len(),
                forall|j: int|
                    0 <= j < i ==> !((#[trigger] self.table()[j]).name == name@
                        && self.table()[j].kind == tp),
            decreases self.symbol_table@.len() - i,
        {
            if self.symbol_table[i].id == *name && self.symbol_table[i].tp == tp {
                assert(self.table()[i as int].name == name@ && self.table()[i as int].kind == tp);
                return true;
            }
            i += 1;
        }
        false
    }

    /// Reads one name and checks that it has been declared.
    pub fn check_symbol_table_for_identifier(&mut self) -> (r: Result<(), ParseError>)
        ensures
            final(self).ended_as(
                *old(self),
                declared_name(old(self).views(), old(self).position(), old(self).table()),
                r,
            ),
    {
        if !self.at_kind(TokenType::Identifier) {
            return Err(self.report_error(ErrorKind::Syntax, Some(TokenType::Identifier)));
        }
        let name = self.tokens[self.pos].text_value();
        if !self.holds_name(&name) {
            return Err(self.report_error(ErrorKind::Declaration, None));
        }
        self.advance();
        Ok(())
    }

    /// `factor := NUMBER | IDENT | '(' expr ')'`
    pub fn parse_factor(&mut self) -> (r: Result<(), ParseError>)
        ensures
            final(self).ended_as(
                *old(self),
                factor(old(self).views(), old(self).position(), old(self).table()),
                r,
            ),
        decreases old(self).tokens().len() - old(self).position(), 0int,
    {
        if self.at_kind(TokenType::Number) || self.at_kind(TokenType::Identifier) {
            self.advance();
            Ok(())
        } else if self.at_kind(TokenType::LeftParenthesis) {
            proof {
                lemma_expression_advances(self.views(), self.position() + 1, self.table());
            }
            self.advance();
            match self.parse_arith_expr() {
                Ok(()) => self.expect(TokenType::RightParenthesis),
                Err(error) => Err(error),
            }
        } else {
            Err(self.report_error(ErrorKind::Syntax, None))
        }
    }

    /// `term := factor (('*' | '/') factor)*`
    pub fn parse_term(&mut self) -> (r: Result<(), ParseError>)
        ensures
            final(self).ended_as(
                *old(self),
                term(old(self).views(), old(self).position(), old(self).table()),
                r,
            ),
        decreases old(self).tokens().len() - old(self).position(), 1int,
    {
        let ghost tokens = self.views();
        let ghost table = self.table();
        let ghost whole = term(tokens, self.position(), table);
        proof {
            lemma_factor_advances(tokens, self.position(), table);
        }
        match self.parse_factor() {
            Ok(()) => {},
            Err(error) => {
                return Err(error);
            },
        }
        loop
            invariant
                self.tokens() == old(self).tokens(),
                self.nesting() == old(self).nesting(),
                self.table() == table,
                tokens == old(self).views(),
                old(self).position() < self.position() <= tokens.len(),
                whole == term_rest(tokens, self.position(), table),
                whole == term(tokens, old(self).position(), table),
                table == old(self).table(),
            decreases tokens.len() - self.position(),
        {
            if !(self.at_kind(TokenType::Star) || self.at_kind(TokenType::Slash)) {
                return Ok(());
            }
            self.advance();
            proof {
                lemma_factor_advances(tokens, self.position(), table);
            }
            match self.parse_factor() {
                Ok(()) => {},
                Err(error) => {
                    return Err(error);
                },
            }
        }
    }

    /// `expr := term (('+' | '-') term)*`
    pub fn parse_arith_expr(&mut self) -> (r: Result<(), ParseError>)
        ensures
            final(self).ended_as(
                *old(self),
                expression(old(self).views(), old(self).position(), old(self).table()),
                r,
            ),
        decreases old(self).tokens().len() - old(self).position(), 2int,
    {
        let ghost tokens = self.views();
        let ghost table = self.table();
        let ghost whole = expression(tokens, self.position(), table);
        proof {
            lemma_term_advances(tokens, self.position(), table);
        }
        match self.parse_term() {
            Ok(()) => {},
            Err(error) => {
                return Err(error);
            },
        }
        loop
            invariant
                self.tokens() == old(self).tokens(),
                self.nesting() == old(self).nesting(),
                self.table() == table,
                tokens == old(self).views(),
                old(self).position() < self.position() <= tokens.len(),
                whole == expression_rest(tokens, self.position(), table),
                whole == expression(tokens, old(self).position(), table),
                table == old(self).table(),
            decreases tokens.len() - self.position(),
        {
            if !(self.at_kind(TokenType::Plus) || self.at_kind(TokenType::Minus)) {
                return Ok(());
            }
            self.advance();
            proof {
                lemma_term_advances(tokens, self.position(), table);
            }
            match self.parse_term() {
                Ok(()) => {},
                Err(error) => {
                    return Err(error);
                },
            }
        }
    }

    /// An arithmetic expression.
    pub fn parse_expression(&mut self) -> (r: Result<(), ParseError>)
        ensures
            final(self).ended_as(
                *old(self),
                expression(old(self).views(), old(self).position(), old(self).table()),
                r,
            ),
    {
        self.parse_arith_expr()
    }

    /// `'(' expr ')'`, as it follows `if`, `while` and `print`.
    pub fn parse_condition(&mut self) -> (r: Result<(), ParseError>)
        ensures
            final(self).ended_as(
                *old(self),
                condition(old(self).views(), old(self).position(), old(self).table()),
                r,
            ),
    {
        proof {
            lemma_expression_advances(self.views(), self.position() + 1, self.table());
        }
        self.expect(TokenType::LeftParenthesis)?;
        self.parse_expression()?;
        self.expect(TokenType::RightParenthesis)
    }

    /// `param_list := (TYPE IDENT (',' TYPE IDENT)*)?`
    pub fn parse_param_list(&mut self) -> (r: Result<(), ParseError>)
        ensures
            final(self).ended_as(
                *old(self),
                param_list(old(self).views(), old(self).position(), old(self).table()),
                r,
            ),
    {
        let ghost tokens = self.views();
        let ghost table = self.table();
        if !self.at_width() {
            return Ok(());
        }
        self.advance();
        if !self.at_kind(TokenType::Identifier) {
            return Err(self.report_error(ErrorKind::Syntax, Some(TokenType::Identifier)));
        }
        self.advance();
        loop
            invariant
                self.tokens() == old(self).tokens(),
                self.nesting() == old(self).nesting(),
                self.table() == table,
                table == old(self).table(),
                tokens == old(self).views(),
                0 <= self.position() <= tokens.len(),
                more_params(tokens, self.position(), table) == param_list(
                    tokens,
                    old(self).position(),
                    table,
                ),
            decreases tokens.len() - self.position(),
        {
            if !self.at_kind(TokenType::Comma) {
                return Ok(());
            }
            self.advance();
            if !self.at_width() {
                return Err(self.report_error(ErrorKind::Syntax, None));
            }
            self.advance();
            if !self.at_kind(TokenType::Identifier) {
                return Err(self.report_error(ErrorKind::Syntax, Some(TokenType::Identifier)));
            }
            self.advance();
        }
    }

    /// `arg_list := (IDENT (',' IDENT)*)?`, each name declared.
    pub fn parse_func_call_param_list(&mut self) -> (r: Result<(), ParseError>)
        ensures
            final(self).ended_as(
                *old(self),
                arg_list(old(self).views(), old(self).position(), old(self).table()),
                r,
            ),
    {
        let ghost tokens = self.views();
        let ghost table = self.table();
        if !self.at_kind(TokenType::Identifier) {
            return Ok(());
        }
        self.check_symbol_table_for_identifier()?;
        loop
            invariant
                self.tokens() == old(self).tokens(),
                self.nesting() == old(self).nesting(),
                self.table() == table,
                table == old(self).table(),
                tokens == old(self).views(),
                0 <= self.position() <= tokens.len(),
                more_args(tokens, self.position(), table) == arg_list(
                    tokens,
                    old(self).position(),
                    table,
                ),
            decreases tokens.len() - self.position(),
        {
            if !self.at_kind(TokenType::Comma) {
                return Ok(());
            }
            self.advance();
            self.check_symbol_table_for_identifier()?;
        }
    }

    /// `call_tail := '(' arg_list ')' ';'`
    pub fn parse_func_call(&mut self) -> (r: Result<(), ParseError>)
        ensures
            final(self).ended_as(
                *old(self),
                call_tail(old(self).views(), old(self).position(), old(self).table()),
                r,
            ),
    {
        self.expect(TokenType::LeftParenthesis)?;
        proof {
            lemma_arg_list_bounds(self.views(), self.position(), self.table());
        }
        self.parse_func_call_param_list()?;
        self.expect(TokenType::RightParenthesis)?;
        self.expect(TokenType::Semicolon)
    }

    /// `var_decl := TYPE IDENT ';'`
    pub fn parse_var_decl(&mut self) -> (r: Result<(), ParseError>)
        ensures
            final(self).ended_as(
                *old(self),
                var_decl(old(self).views(), old(self).position(), old(self).table()),
                r,
            ),
    {
        if !self.at_width() {
            return Err(self.report_error(ErrorKind::Syntax, None));
        }
        let var_type = self.tokens[self.pos].kind();
        self.advance();
        if !self.at_kind(TokenType::Identifier) {
            return Err(self.report_error(ErrorKind::Syntax, Some(TokenType::Identifier)));
        }
        let var_name = self.tokens[self.pos].text_value();
        self.advance();
        self.declare(var_name, var_type);
        self.expect(TokenType::Semicolon)
    }

    /// `print_stmt := 'print' '(' expr ')' ';'`
    pub fn parse_print_stmt(&mut self) -> (r: Result<(), ParseError>)
        ensures
            final(self).ended_as(
                *old(self),
                print_stmt(old(self).views(), old(self).position(), old(self).table()),
                r,
            ),
    {
        proof {
            lemma_condition_advances(self.views(), self.position() + 1, self.table());
        }
        self.expect(TokenType::Print)?;
        self.parse_condition()?;
        self.expect(TokenType::Semicolon)
    }

    /// `break_stmt := 'break' ';'`
    pub fn parse_break_stmt(&mut self) -> (r: Result<(), ParseError>)
        ensures
            final(self).ended_as(
                *old(self),
                break_stmt(old(self).views(), old(self).position(), old(self).table()),
                r,
            ),
    {
        self.expect(TokenType::Break)?;
        self.expect(TokenType::Semicolon)
    }

    /// `continue_stmt := 'continue' ';'`
    pub fn parse_continue_stmt(&mut self) -> (r: Result<(), ParseError>)
        ensures
            final(self).ended_as(
                *old(self),
                continue_stmt(old(self).views(), old(self).position(), old(self).table()),
                r,
            ),
    {
        self.expect(TokenType::Continue)?;
        self.expect(TokenType::Semicolon)
    }

    /// `return_stmt := 'return' expr? ';'`
    pub fn parse_return_stmt(&mut self) -> (r: Result<(), ParseError>)
        ensures
            final(self).ended_as(
                *old(self),
                return_stmt(old(self).views(), old(self).position(), old(self).table()),
                r,
            ),
    {
        proof {
            lemma_expression_advances(self.views(), self.position() + 1, self.table());
        }
        self.expect(TokenType::Return)?;
        if self.at_kind(TokenType::Semicolon) {
            self.advance();
            return Ok(());
        }
        self.parse_expression()?;
        self.expect(TokenType::Semicolon)
    }

    /// `assign_or_call := IDENT ('=' (IDENT call_tail | expr ';') | call_tail)`
    pub fn parse_assign_or_func_call(&mut self) -> (r: Result<(), ParseError>)
        ensures
            final(self).ended_as(
                *old(self),
                assign_or_call(old(self).views(), old(self).position(), old(self).table()),
                r,
            ),
    {
        proof {
            lemma_expression_advances(self.views(), self.position() + 2, self.table());
        }
        self.check_symbol_table_for_identifier()?;
        if self.at_kind(TokenType::Assing) {
            self.advance();
            let calls = if self.at_kind(TokenType::Identifier) {
                let name = self.tokens[self.pos].text_value();
                self.holds_name_as(&name, TokenType::Function)
            } else {
                false
            };
            if calls {
                self.advance();
                self.parse_func_call()
            } else {
                self.parse_expression()?;
                self.expect(TokenType::Semicolon)
            }
        } else if self.at_kind(TokenType::LeftParenthesis) {
            self.parse_func_call()
        } else {
            Err(self.report_error(ErrorKind::Syntax, None))
        }
    }

    /// `func_decl := 'function' IDENT '(' param_list ')' block`
    pub fn parse_func_decl(&mut self) -> (r: Result<(), ParseError>)
        ensures
            final(self).ended_as(
                *old(self),
                func_decl(
                    old(self).views(),
                    old(self).position(),
                    old(self).table(),
                    old(self).nesting(),
                ),
                r,
            ),
        decreases old(self).tokens().len() - old(self).position(), 0int,
    {
        self.expect(TokenType::Function)?;
        if !self.at_kind(TokenType::Identifier) {
            return Err(self.report_error(ErrorKind::Syntax, Some(TokenType::Identifier)));
        }
        let name = self.tokens[self.pos].text_value();
        self.advance();
        self.declare(name, TokenType::Function);
        self.expect(TokenType::LeftParenthesis)?;
        proof {
            lemma_param_list_bounds(self.views(), self.position(), self.table());
        }
        self.parse_param_list()?;
        self.expect(TokenType::RightParenthesis)?;
        let outside = self.within_function;
        self.within_function = true;
        let body = self.parse_block();
        self.within_function = outside;
        body
    }

    /// `if_stmt := 'if' '(' expr ')' block ('else' block)?`
    pub fn parse_if_stmt(&mut self) -> (r: Result<(), ParseError>)
        ensures
            final(self).ended_as(
                *old(self),
                if_stmt(
                    old(self).views(),
                    old(self).position(),
                    old(self).table(),
                    old(self).nesting(),
                ),
                r,
            ),
        decreases old(self).tokens().len() - old(self).position(), 0int,
    {
        proof {
            lemma_condition_advances(self.views(), self.position() + 1, self.table());
        }
        self.expect(TokenType::If)?;
        self.parse_condition()?;
        proof {
            lemma_block_advances(self.views(), self.position(), self.table(), self.nesting());
        }
        self.parse_block()?;
        if self.at_kind(TokenType::Else) {
            self.advance();
            self.parse_block()
        } else {
            Ok(())
        }
    }

    /// `while_stmt := 'while' '(' expr ')' block`
    pub fn parse_while_stmt(&mut self) -> (r: Result<(), ParseError>)
        ensures
            final(self).ended_as(
                *old(self),
                while_stmt(
                    old(self).views(),
                    old(self).position(),
                    old(self).table(),
                    old(self).nesting(),
                ),
                r,
            ),
        decreases old(self).tokens().len() - old(self).position(), 0int,
    {
        proof {
            lemma_condition_advances(self.views(), self.position() + 1, self.table());
        }
        self.expect(TokenType::While)?;
        self.parse_condition()?;
        let outside = self.within_loop;
        self.within_loop = true;
        let body = self.parse_block();
        self.within_loop = outside;
        body
    }

    /// One statement, chosen by the kind of its first token.
    pub fn parse_statement(&mut self) -> (r: Result<(), ParseError>)
        ensures
            final(self).ended_as(
                *old(self),
                statement(
                    old(self).views(),
                    old(self).position(),
                    old(self).table(),
                    old(self).nesting(),
                ),
                r,
            ),
        decreases old(self).tokens().len() - old(self).position(), 1int,
    {
        if self.at_width() {
            self.parse_var_decl()
        } else if self.at_kind(TokenType::Function) {
            self.parse_func_decl()
        } else if self.at_kind(TokenType::If) {
            self.parse_if_stmt()
        } else if self.at_kind(TokenType::While) {
            self.parse_while_stmt()
        } else if self.at_kind(TokenType::Print) {
            self.parse_print_stmt()
        } else if self.at_kind(TokenType::Break) {
            if self.within_loop {
                self.parse_break_stmt()
            } else {
                Err(self.report_error(ErrorKind::Context, None))
            }
        } else if self.at_kind(TokenType::Continue) {
            if self.within_loop {
                self.parse_continue_stmt()
            } else {
                Err(self.report_error(ErrorKind::Context, None))
            }
        } else if self.at_kind(TokenType::Return) {
            if self.within_function {
                self.parse_return_stmt()
            } else {
                Err(self.report_error(ErrorKind::Context, None))
            }
        } else if self.at_kind(TokenType::Identifier) {
            self.parse_assign_or_func_call()
        } else {
            Err(self.report_error(ErrorKind::Syntax, None))
        }
    }

    /// `statement*`, up to a token of kind `until`, which is not read.
    pub fn parse_statements(&mut self, until: TokenType) -> (r: Result<(), ParseError>)
        ensures
            final(self).ended_as(
                *old(self),
                statements(
                    old(self).views(),
                    old(self).position(),
                    old(self).table(),
                    old(self).nesting(),
                    until,
                ),
                r,
            ),
        decreases old(self).tokens().len() - old(self).position(), 2int,
    {
        let ghost tokens = self.views();
        let ghost nesting = self.nesting();
        let ghost whole = statements(tokens, self.position(), self.table(), nesting, until);
        loop
            invariant
                self.tokens() == old(self).tokens(),
                self.nesting() == old(self).nesting(),
                tokens == old(self).views(),
                nesting == old(self).nesting(),
                old(self).position() <= self.position(),
                self.position() <= tokens.len() || self.position() == old(self).position(),
                whole == statements(tokens, self.position(), self.table(), nesting, until),
                whole == statements(
                    tokens,
                    old(self).position(),
                    old(self).table(),
                    nesting,
                    until,
                ),
            decreases tokens.len() - self.position(),
        {
            if self.at_kind(until) {
                return Ok(());
            }
            proof {
                lemma_statement_advances(tokens, self.position(), self.table(), nesting);
            }
            match self.parse_statement() {
                Ok(()) => {},
                Err(error) => {
                    return Err(error);
                },
            }
        }
    }

    /// `block := '{' statement* '}'`
    pub fn parse_block(&mut self) -> (r: Result<(), ParseError>)
        ensures
            final(self).ended_as(
                *old(self),
                block(
                    old(self).views(),
                    old(self).position(),
                    old(self).table(),
                    old(self).nesting(),
                ),
                r,
            ),
        decreases old(self).tokens().len() - old(self).position(), 3int,
    {
        self.expect(TokenType::LeftBraces)?;
        self.parse_statements(TokenType::RightBraces)?;
        self.expect(TokenType::RightBraces)
    }
}

} // verus!
