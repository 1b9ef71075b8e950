//! The grammar of the language and its declaration rule, as functions on a
//! sequence of tokens.
//!
//! ```text
//! program        := statement* EOF
//! statement      := var_decl | func_decl | if_stmt | while_stmt | print_stmt
//!                 | break_stmt | continue_stmt | return_stmt | assign_or_call
//! var_decl       := TYPE IDENT ';'
//! func_decl      := 'function' IDENT '(' param_list ')' block
//! param_list     := (TYPE IDENT (',' TYPE IDENT)*)?
//! if_stmt        := 'if' '(' expr ')' block ('else' block)?
//! while_stmt     := 'while' '(' expr ')' block
//! print_stmt     := 'print' '(' expr ')' ';'
//! break_stmt     := 'break' ';'
//! continue_stmt  := 'continue' ';'
//! return_stmt    := 'return' expr? ';'
//! assign_or_call := IDENT ('=' (IDENT call_tail | expr ';') | call_tail)
//! call_tail      := '(' arg_list ')' ';'
//! arg_list       := (IDENT (',' IDENT)*)?
//! block          := '{' statement* '}'
//! expr           := term (('+' | '-') term)*
//! term           := factor (('*' | '/') factor)*
//! factor         := NUMBER | IDENT | '(' expr ')'
//! ```
//!
//! Each production is a function from the tokens, a place among them and the
//! declarations made so far to an [`Outcome`]. Tokens are told apart by their
//! kind alone. A variable or function declaration adds its name to the
//! declarations, which are never taken back; the name that begins an
//! assignment or a call, and each argument of a call, must have been declared.
//! Names inside an arithmetic expression are not looked up.

use crate::token::{TokenType, TokenView};
use vstd::prelude::*;

verus! {

/// The three ways in which a sequence of tokens is refused.
#[derive(Debug, Clone, Copy, PartialEq, Eq, Structural)]
pub enum ErrorKind {
    /// A production met a token that it has no use for, or no token at all.
    Syntax,
    /// A name is used that no declaration before it has introduced.
    Declaration,
    /// `break` or `continue` outside a loop, or `return` outside a function.
    Context,
}

/// One entry of the declaration table: a name and the kind it was declared
/// with, a width keyword for a variable and `Function` for a function.
pub struct Declaration {
    pub name: Seq<char>,
    pub kind: TokenType,
}

/// Whether the statement at hand stands inside the body of a loop, and
/// whether inside the body of a function.
#[derive(Debug, Clone, Copy, PartialEq, Eq, Structural)]
pub struct Nesting {
    pub within_loop: bool,
    pub within_function: bool,
}

impl Nesting {
    /// Outside every loop and function.
    pub open spec fn top() -> Nesting {
        Nesting { within_loop: false, within_function: false }
    }

    /// The nesting of the body of a loop that stands here.
    pub open spec fn in_loop(self) -> Nesting {
        Nesting { within_loop: true, within_function: self.within_function }
    }

    /// The nesting of the body of a function that stands here.
    pub open spec fn in_function(self) -> Nesting {
        Nesting { within_loop: self.within_loop, within_function: true }
    }
}

/// Why a production stopped: the way of the refusal and, where the
/// production asked for one kind of token, that kind.
pub struct Failure {
    pub kind: ErrorKind,
    pub expected: Option<TokenType>,
}

/// How a production ended.
///
/// Without a failure, `pos` is the place behind the tokens it read. With one,
/// `pos` is the place of the token that it stopped at. `table` holds the
/// declarations made up to there.
pub struct Outcome {
    pub pos: int,
    pub table: Seq<Declaration>,
    pub failure: Option<Failure>,
}

/// The outcome without failure that ends at `pos` with `table`.
pub open spec fn accept(pos: int, table: Seq<Declaration>) -> Outcome {
    Outcome { pos, table, failure: None }
}

/// The failure of the kind `kind` at the token at `pos`, with `table`.
pub open spec fn reject(
    pos: int,
    table: Seq<Declaration>,
    kind: ErrorKind,
    expected: Option<TokenType>,
) -> Outcome {
    Outcome { pos, table, failure: Some(Failure { kind, expected }) }
}

/// The kind of the token at `pos`, if there is a token.
pub open spec fn kind_at(tokens: Seq<TokenView>, pos: int) -> Option<TokenType> {
    if 0 <= pos < tokens.len() {
        Some(tokens[pos].kind)
    } else {
        None
    }
}

/// Whether a token of kind `kind` stands at `pos`.
pub open spec fn at(tokens: Seq<TokenView>, pos: int, kind: TokenType) -> bool {
    kind_at(tokens, pos) == Some(kind)
}

/// Whether a width keyword stands at `pos`.
pub open spec fn width_at(tokens: Seq<TokenView>, pos: int) -> bool {
    kind_at(tokens, pos) matches Some(kind) && kind.is_width()
}

/// Whether `name` has been declared.
pub open spec fn declared(table: Seq<Declaration>, name: Seq<char>) -> bool {
    exists|i: int| 0 <= i < table.len() && (#[trigger] table[i]).name == name
}

/// Whether `name` has been declared with the kind `kind`.
pub open spec fn declared_as(table: Seq<Declaration>, name: Seq<char>, kind: TokenType) -> bool {
    exists|i: int|
        0 <= i < table.len() && (#[trigger] table[i]).name == name && table[i].kind == kind
}

/// Whether `o` is without failure and ends behind `pos`, among the tokens.
/// Every outcome without failure of a production that reads a token does
/// ([`lemma_statement_advances`], [`lemma_expression_advances`]).
pub open spec fn advanced(tokens: Seq<TokenView>, pos: int, o: Outcome) -> bool {
    o.failure is None && pos < o.pos <= tokens.len()
}

/// One token of kind `kind`.
pub open spec fn expect(
    tokens: Seq<TokenView>,
    pos: int,
    table: Seq<Declaration>,
    kind: TokenType,
) -> Outcome {
    if at(tokens, pos, kind) {
        accept(pos + 1, table)
    } else {
        reject(pos, table, ErrorKind::Syntax, Some(kind))
    }
}

/// One name that has been declared.
pub open spec fn declared_name(tokens: Seq<TokenView>, pos: int, table: Seq<Declaration>)
    -> Outcome {
    if !at(tokens, pos, TokenType::Identifier) {
        reject(pos, table, ErrorKind::Syntax, Some(TokenType::Identifier))
    } else if !declared(table, tokens[pos].text) {
        reject(pos, table, ErrorKind::Declaration, None)
    } else {
        accept(pos + 1, table)
    }
}

/// `factor := NUMBER | IDENT | '(' expr ')'`
pub open spec fn factor(tokens: Seq<TokenView>, pos: int, table: Seq<Declaration>) -> Outcome
    decreases tokens.len() - pos, 0int,
{
    if at(tokens, pos, TokenType::Number) || at(tokens, pos, TokenType::Identifier) {
        accept(pos + 1, table)
    } else if at(tokens, pos, TokenType::LeftParenthesis) {
        let inner = expression(tokens, pos + 1, table);
        if inner.failure is Some {
            inner
        } else {
            expect(tokens, inner.pos, table, TokenType::RightParenthesis)
        }
    } else {
        reject(pos, table, ErrorKind::Syntax, None)
    }
}

/// `term := factor (('*' | '/') factor)*`
pub open spec fn term(tokens: Seq<TokenView>, pos: int, table: Seq<Declaration>) -> Outcome
    decreases tokens.len() - pos, 1int,
{
    let first = factor(tokens, pos, table);
    if !advanced(tokens, pos, first) {
        first
    } else if at(tokens, first.pos, TokenType::Star) || at(tokens, first.pos, TokenType::Slash) {
        term(tokens, first.pos + 1, table)
    } else {
        first
    }
}

/// `expr := term (('+' | '-') term)*`
pub open spec fn expression(tokens: Seq<TokenView>, pos: int, table: Seq<Declaration>) -> Outcome
    decreases tokens.len() - pos, 2int,
{
    let first = term(tokens, pos, table);
    if !advanced(tokens, pos, first) {
        first
    } else if at(tokens, first.pos, TokenType::Plus) || at(tokens, first.pos, TokenType::Minus) {
        expression(tokens, first.pos + 1, table)
    } else {
        first
    }
}

/// `(',' TYPE IDENT)*`
pub open spec fn more_params(tokens: Seq<TokenView>, pos: int, table: Seq<Declaration>) -> Outcome
    decreases tokens.len() - pos,
{
    if !at(tokens, pos, TokenType::Comma) {
        accept(pos, table)
    } else if !width_at(tokens, pos + 1) {
        reject(pos + 1, table, ErrorKind::Syntax, None)
    } else if !at(tokens, pos + 2, TokenType::Identifier) {
        reject(pos + 2, table, ErrorKind::Syntax, Some(TokenType::Identifier))
    } else {
        more_params(tokens, pos + 3, table)
    }
}

/// `param_list := (TYPE IDENT (',' TYPE IDENT)*)?`
///
/// The names of parameters are read and not declared.
pub open spec fn param_list(tokens: Seq<TokenView>, pos: int, table: Seq<Declaration>) -> Outcome {
    if !width_at(tokens, pos) {
        accept(pos, table)
    } else if !at(tokens, pos + 1, TokenType::Identifier) {
        reject(pos + 1, table, ErrorKind::Syntax, Some(TokenType::Identifier))
    } else {
        more_params(tokens, pos + 2, table)
    }
}

/// `(',' IDENT)*`, each name declared.
pub open spec fn more_args(tokens: Seq<TokenView>, pos: int, table: Seq<Declaration>) -> Outcome
    decreases tokens.len() - pos,
{
    if !at(tokens, pos, TokenType::Comma) {
        accept(pos, table)
    } else {
        let name = declared_name(tokens, pos + 1, table);
        if name.failure is Some {
            name
        } else {
            more_args(tokens, pos + 2, table)
        }
    }
}

/// `arg_list := (IDENT (',' IDENT)*)?`, each name declared.
pub open spec fn arg_list(tokens: Seq<TokenView>, pos: int, table: Seq<Declaration>) -> Outcome {
    if !at(tokens, pos, TokenType::Identifier) {
        accept(pos, table)
    } else {
        let name = declared_name(tokens, pos, table);
        if name.failure is Some {
            name
        } else {
            more_args(tokens, pos + 1, table)
        }
    }
}

/// `call_tail := '(' arg_list ')' ';'`
pub open spec fn call_tail(tokens: Seq<TokenView>, pos: int, table: Seq<Declaration>) -> Outcome {
    let open = expect(tokens, pos, table, TokenType::LeftParenthesis);
    if open.failure is Some {
        open
    } else {
        let args = arg_list(tokens, open.pos, table);
        if args.failure is Some {
            args
        } else {
            let close = expect(tokens, args.pos, table, TokenType::RightParenthesis);
            if close.failure is Some {
                close
            } else {
                expect(tokens, close.pos, table, TokenType::Semicolon)
            }
        }
    }
}

/// `'(' expr ')'`, as it follows `if`, `while` and `print`.
pub open spec fn condition(tokens: Seq<TokenView>, pos: int, table: Seq<Declaration>) -> Outcome {
    let open = expect(tokens, pos, table, TokenType::LeftParenthesis);
    if open.failure is Some {
        open
    } else {
        let inner = expression(tokens, open.pos, table);
        if inner.failure is Some {
            inner
        } else {
            expect(tokens, inner.pos, table, TokenType::RightParenthesis)
        }
    }
}

/// `var_decl := TYPE IDENT ';'`
///
/// The name is declared with the width keyword as its kind as soon as it has
/// been read.
pub open spec fn var_decl(tokens: Seq<TokenView>, pos: int, table: Seq<Declaration>) -> Outcome {
    if !width_at(tokens, pos) {
        reject(pos, table, ErrorKind::Syntax, None)
    } else if !at(tokens, pos + 1, TokenType::Identifier) {
        reject(pos + 1, table, ErrorKind::Syntax, Some(TokenType::Identifier))
    } else {
        expect(
            tokens,
            pos + 2,
            table.push(Declaration { name: tokens[pos + 1].text, kind: tokens[pos].kind }),
            TokenType::Semicolon,
        )
    }
}

/// `print_stmt := 'print' '(' expr ')' ';'`
pub open spec fn print_stmt(tokens: Seq<TokenView>, pos: int, table: Seq<Declaration>) -> Outcome {
    let keyword = expect(tokens, pos, table, TokenType::Print);
    if keyword.failure is Some {
        keyword
    } else {
        let inner = condition(tokens, keyword.pos, table);
        if inner.failure is Some {
            inner
        } else {
            expect(tokens, inner.pos, table, TokenType::Semicolon)
        }
    }
}

/// `break_stmt := 'break' ';'`
pub open spec fn break_stmt(tokens: Seq<TokenView>, pos: int, table: Seq<Declaration>) -> Outcome {
    let keyword = expect(tokens, pos, table, TokenType::Break);
    if keyword.failure is Some {
        keyword
    } else {
        expect(tokens, keyword.pos, table, TokenType::Semicolon)
    }
}

/// `continue_stmt := 'continue' ';'`
pub open spec fn continue_stmt(tokens: Seq<TokenView>, pos: int, table: Seq<Declaration>)
    -> Outcome {
    let keyword = expect(tokens, pos, table, TokenType::Continue);
    if keyword.failure is Some {
        keyword
    } else {
        expect(tokens, keyword.pos, table, TokenType::Semicolon)
    }
}

/// `return_stmt := 'return' expr? ';'`
pub open spec fn return_stmt(tokens: Seq<TokenView>, pos: int, table: Seq<Declaration>)
    -> Outcome {
    let keyword = expect(tokens, pos, table, TokenType::Return);
    if keyword.failure is Some {
        keyword
    } else if at(tokens, keyword.pos, TokenType::Semicolon) {
        accept(keyword.pos + 1, table)
    } else {
        let value = expression(tokens, keyword.pos, table);
        if value.failure is Some {
            value
        } else {
            expect(tokens, value.pos, table, TokenType::Semicolon)
        }
    }
}

/// `assign_or_call := IDENT ('=' (IDENT call_tail | expr ';') | call_tail)`
///
/// The leading name must have been declared. Behind `=`, a name that has been
/// declared as a function begins a call; anything else is an expression.
pub open spec fn assign_or_call(tokens: Seq<TokenView>, pos: int, table: Seq<Declaration>)
    -> Outcome {
    let target = declared_name(tokens, pos, table);
    if target.failure is Some {
        target
    } else if at(tokens, pos + 1, TokenType::Assing) {
        if at(tokens, pos + 2, TokenType::Identifier) && declared_as(
            table,
            tokens[pos + 2].text,
            TokenType::Function,
        ) {
            call_tail(tokens, pos + 3, table)
        } else {
            let value = expression(tokens, pos + 2, table);
            if value.failure is Some {
                value
            } else {
                expect(tokens, value.pos, table, TokenType::Semicolon)
            }
        }
    } else if at(tokens, pos + 1, TokenType::LeftParenthesis) {
        call_tail(tokens, pos + 1, table)
    } else {
        reject(pos + 1, table, ErrorKind::Syntax, None)
    }
}

/// `func_decl := 'function' IDENT '(' param_list ')' block`
///
/// The name is declared as a function as soon as it has been read, so the
/// body may call it. The body stands inside a function.
pub open spec fn func_decl(
    tokens: Seq<TokenView>,
    pos: int,
    table: Seq<Declaration>,
    nesting: Nesting,
) -> Outcome
    decreases tokens.len() - pos, 0int,
{
    if !at(tokens, pos, TokenType::Function) {
        reject(pos, table, ErrorKind::Syntax, Some(TokenType::Function))
    } else if !at(tokens, pos + 1, TokenType::Identifier) {
        reject(pos + 1, table, ErrorKind::Syntax, Some(TokenType::Identifier))
    } else {
        let named = table.push(
            Declaration { name: tokens[pos + 1].text, kind: TokenType::Function },
        );
        let open = expect(tokens, pos + 2, named, TokenType::LeftParenthesis);
        if open.failure is Some {
            open
        } else {
            let params = param_list(tokens, open.pos, named);
            if params.failure is Some {
                params
            } else {
                let close = expect(tokens, params.pos, named, TokenType::RightParenthesis);
                if close.failure is Some {
                    close
                } else {
                    proof {
                        lemma_param_list_bounds(tokens, open.pos, named);
                    }
                    block(tokens, close.pos, named, nesting.in_function())
                }
            }
        }
    }
}

/// `if_stmt := 'if' '(' expr ')' block ('else' block)?`
pub open spec fn if_stmt(
    tokens: Seq<TokenView>,
    pos: int,
    table: Seq<Declaration>,
    nesting: Nesting,
) -> Outcome
    decreases tokens.len() - pos, 0int,
{
    let keyword = expect(tokens, pos, table, TokenType::If);
    if keyword.failure is Some {
        keyword
    } else {
        let test = condition(tokens, keyword.pos, table);
        if test.failure is Some {
            test
        } else {
            proof {
                lemma_condition_advances(tokens, keyword.pos, table);
            }
            let body = block(tokens, test.pos, table, nesting);
            if !advanced(tokens, pos, body) {
                body
            } else if at(tokens, body.pos, TokenType::Else) {
                block(tokens, body.pos + 1, body.table, nesting)
            } else {
                body
            }
        }
    }
}

/// `while_stmt := 'while' '(' expr ')' block`
///
/// The body stands inside a loop.
pub open spec fn while_stmt(
    tokens: Seq<TokenView>,
    pos: int,
    table: Seq<Declaration>,
    nesting: Nesting,
) -> Outcome
    decreases tokens.len() - pos, 0int,
{
    let keyword = expect(tokens, pos, table, TokenType::While);
    if keyword.failure is Some {
        keyword
    } else {
        let test = condition(tokens, keyword.pos, table);
        if test.failure is Some {
            test
        } else {
            proof {
                lemma_condition_advances(tokens, keyword.pos, table);
            }
            block(tokens, test.pos, table, nesting.in_loop())
        }
    }
}

/// One statement, chosen by the kind of its first token.
///
/// `break` and `continue` are refused outside a loop, `return` outside a
/// function.
pub open spec fn statement(
    tokens: Seq<TokenView>,
    pos: int,
    table: Seq<Declaration>,
    nesting: Nesting,
) -> Outcome
    decreases tokens.len() - pos, 1int,
{
    if width_at(tokens, pos) {
        var_decl(tokens, pos, table)
    } else if at(tokens, pos, TokenType::Function) {
        func_decl(tokens, pos, table, nesting)
    } else if at(tokens, pos, TokenType::If) {
        if_stmt(tokens, pos, table, nesting)
    } else if at(tokens, pos, TokenType::While) {
        while_stmt(tokens, pos, table, nesting)
    } else if at(tokens, pos, TokenType::Print) {
        print_stmt(tokens, pos, table)
    } else if at(tokens, pos, TokenType::Break) {
        if nesting.within_loop {
            break_stmt(tokens, pos, table)
        } else {
            reject(pos, table, ErrorKind::Context, None)
        }
    } else if at(tokens, pos, TokenType::Continue) {
        if nesting.within_loop {
            continue_stmt(tokens, pos, table)
        } else {
            reject(pos, table, ErrorKind::Context, None)
        }
    } else if at(tokens, pos, TokenType::Return) {
        if nesting.within_function {
            return_stmt(tokens, pos, table)
        } else {
            reject(pos, table, ErrorKind::Context, None)
        }
    } else if at(tokens, pos, TokenType::Identifier) {
        assign_or_call(tokens, pos, table)
    } else {
        reject(pos, table, ErrorKind::Syntax, None)
    }
}

/// `statement*`, up to a token of kind `until`, which is not read.
pub open spec fn statements(
    tokens: Seq<TokenView>,
    pos: int,
    table: Seq<Declaration>,
    nesting: Nesting,
    until: TokenType,
) -> Outcome
    decreases tokens.len() - pos, 2int,
{
    if at(tokens, pos, until) {
        accept(pos, table)
    } else {
        let first = statement(tokens, pos, table, nesting);
        if !advanced(tokens, pos, first) {
            first
        } else {
            statements(tokens, first.pos, first.table, nesting, until)
        }
    }
}

/// `block := '{' statement* '}'`
pub open spec fn block(
    tokens: Seq<TokenView>,
    pos: int,
    table: Seq<Declaration>,
    nesting: Nesting,
) -> Outcome
    decreases tokens.len() - pos, 3int,
{
    let open = expect(tokens, pos, table, TokenType::LeftBraces);
    if open.failure is Some {
        open
    } else {
        let body = statements(tokens, open.pos, table, nesting, TokenType::RightBraces);
        if body.failure is Some {
            body
        } else {
            expect(tokens, body.pos, body.table, TokenType::RightBraces)
        }
    }
}

/// `program := statement* EOF`, from `pos` on. The end marker is not read.
pub open spec fn program(
    tokens: Seq<TokenView>,
    pos: int,
    table: Seq<Declaration>,
    nesting: Nesting,
) -> Outcome {
    statements(tokens, pos, table, nesting, TokenType::EOF)
}

/// Whether `tokens` is a program of the language.
pub open spec fn accepts(tokens: Seq<TokenView>) -> bool {
    program(tokens, 0, Seq::empty(), Nesting::top()).failure is None
}

/// An expression without failure reads at least one token and none behind the
/// last; no expression changes the declarations.
pub proof fn lemma_expression_advances(tokens: Seq<TokenView>, pos: int, table: Seq<Declaration>)
    requires
        0 <= pos,
    ensures
        expression(tokens, pos, table).failure is None ==> advanced(
            tokens,
            pos,
            expression(tokens, pos, table),
        ),
        pos <= expression(tokens, pos, table).pos <= tokens.len() || expression(
            tokens,
            pos,
            table,
        ).pos == pos,
        expression(tokens, pos, table).table == table,
    decreases tokens.len() - pos, 2int,
{
    lemma_term_advances(tokens, pos, table);
    let first = term(tokens, pos, table);
    if advanced(tokens, pos, first) && (at(tokens, first.pos, TokenType::Plus) || at(
        tokens,
        first.pos,
        TokenType::Minus,
    )) {
        lemma_expression_advances(tokens, first.pos + 1, table);
    }
}

/// What [`lemma_expression_advances`] says, of a term.
pub proof fn lemma_term_advances(tokens: Seq<TokenView>, pos: int, table: Seq<Declaration>)
    requires
        0 <= pos,
    ensures
        term(tokens, pos, table).failure is None ==> advanced(tokens, pos, term(tokens, pos, table)),
        pos <= term(tokens, pos, table).pos <= tokens.len() || term(tokens, pos, table).pos == pos,
        term(tokens, pos, table).table == table,
    decreases tokens.len() - pos, 1int,
{
    lemma_factor_advances(tokens, pos, table);
    let first = factor(tokens, pos, table);
    if advanced(tokens, pos, first) && (at(tokens, first.pos, TokenType::Star) || at(
        tokens,
        first.pos,
        TokenType::Slash,
    )) {
        lemma_term_advances(tokens, first.pos + 1, table);
    }
}

/// What [`lemma_expression_advances`] says, of a factor.
pub proof fn lemma_factor_advances(tokens: Seq<TokenView>, pos: int, table: Seq<Declaration>)
    requires
        0 <= pos,
    ensures
        factor(tokens, pos, table).failure is None ==> advanced(
            tokens,
            pos,
            factor(tokens, pos, table),
        ),
        pos <= factor(tokens, pos, table).pos <= tokens.len() || factor(tokens, pos, table).pos
            == pos,
        factor(tokens, pos, table).table == table,
    decreases tokens.len() - pos, 0int,
{
    if at(tokens, pos, TokenType::LeftParenthesis) {
        lemma_expression_advances(tokens, pos + 1, table);
    }
}

/// A condition without failure ends behind its first token, among the tokens.
pub proof fn lemma_condition_advances(tokens: Seq<TokenView>, pos: int, table: Seq<Declaration>)
    requires
        0 <= pos,
    ensures
        condition(tokens, pos, table).failure is None ==> advanced(
            tokens,
            pos,
            condition(tokens, pos, table),
        ),
        condition(tokens, pos, table).table == table,
{
    lemma_expression_advances(tokens, pos + 1, table);
}

/// A parameter list ends at or behind its first token, among the tokens, and
/// changes no declaration.
pub proof fn lemma_param_list_bounds(tokens: Seq<TokenView>, pos: int, table: Seq<Declaration>)
    requires
        0 <= pos <= tokens.len(),
    ensures
        pos <= param_list(tokens, pos, table).pos <= tokens.len(),
        param_list(tokens, pos, table).table == table,
{
    if width_at(tokens, pos) && at(tokens, pos + 1, TokenType::Identifier) {
        lemma_more_params_bounds(tokens, pos + 2, table);
    }
}

/// What [`lemma_param_list_bounds`] says, of the parameters behind the first.
pub proof fn lemma_more_params_bounds(tokens: Seq<TokenView>, pos: int, table: Seq<Declaration>)
    requires
        0 <= pos <= tokens.len(),
    ensures
        pos <= more_params(tokens, pos, table).pos <= tokens.len(),
        more_params(tokens, pos, table).table == table,
    decreases tokens.len() - pos,
{
    if at(tokens, pos, TokenType::Comma) && width_at(tokens, pos + 1) && at(
        tokens,
        pos + 2,
        TokenType::Identifier,
    ) {
        lemma_more_params_bounds(tokens, pos + 3, table);
    }
}

/// An argument list ends at or behind its first token, among the tokens, and
/// changes no declaration.
pub proof fn lemma_arg_list_bounds(tokens: Seq<TokenView>, pos: int, table: Seq<Declaration>)
    requires
        0 <= pos <= tokens.len(),
    ensures
        pos <= arg_list(tokens, pos, table).pos <= tokens.len(),
        arg_list(tokens, pos, table).table == table,
{
    if at(tokens, pos, TokenType::Identifier) && declared_name(tokens, pos, table).failure is None {
        lemma_more_args_bounds(tokens, pos + 1, table);
    }
}

/// What [`lemma_arg_list_bounds`] says, of the arguments behind the first.
pub proof fn lemma_more_args_bounds(tokens: Seq<TokenView>, pos: int, table: Seq<Declaration>)
    requires
        0 <= pos <= tokens.len(),
    ensures
        pos <= more_args(tokens, pos, table).pos <= tokens.len(),
        more_args(tokens, pos, table).table == table,
    decreases tokens.len() - pos,
{
    if at(tokens, pos, TokenType::Comma) && declared_name(tokens, pos + 1, table).failure is None {
        lemma_more_args_bounds(tokens, pos + 2, table);
    }
}

/// A statement without failure reads at least one token and none behind the
/// last. Whatever its outcome, the declarations made before it stay, in
/// their order, at the head of the table.
pub proof fn lemma_statement_advances(
    tokens: Seq<TokenView>,
    pos: int,
    table: Seq<Declaration>,
    nesting: Nesting,
)
    requires
        0 <= pos,
    ensures
        statement(tokens, pos, table, nesting).failure is None ==> advanced(
            tokens,
            pos,
            statement(tokens, pos, table, nesting),
        ),
        table.is_prefix_of(statement(tokens, pos, table, nesting).table),
    decreases tokens.len() - pos, 1int,
{
    if width_at(tokens, pos) {
    } else if at(tokens, pos, TokenType::Function) {
        lemma_func_decl_advances(tokens, pos, table, nesting);
    } else if at(tokens, pos, TokenType::If) {
        lemma_if_stmt_advances(tokens, pos, table, nesting);
    } else if at(tokens, pos, TokenType::While) {
        lemma_while_stmt_advances(tokens, pos, table, nesting);
    } else if at(tokens, pos, TokenType::Print) {
        lemma_condition_advances(tokens, pos + 1, table);
    } else if at(tokens, pos, TokenType::Return) {
        lemma_expression_advances(tokens, pos + 1, table);
    } else if at(tokens, pos, TokenType::Identifier) {
        lemma_assign_or_call_advances(tokens, pos, table);
    }
}

/// What [`lemma_statement_advances`] says, of an assignment or a call.
pub proof fn lemma_assign_or_call_advances(
    tokens: Seq<TokenView>,
    pos: int,
    table: Seq<Declaration>,
)
    requires
        0 <= pos,
    ensures
        assign_or_call(tokens, pos, table).failure is None ==> advanced(
            tokens,
            pos,
            assign_or_call(tokens, pos, table),
        ),
        assign_or_call(tokens, pos, table).table == table,
{
    if declared_name(tokens, pos, table).failure is None {
        lemma_expression_advances(tokens, pos + 2, table);
        if pos + 3 < tokens.len() {
            lemma_arg_list_bounds(tokens, pos + 4, table);
        }
        if pos + 1 < tokens.len() {
            lemma_arg_list_bounds(tokens, pos + 2, table);
        }
    }
}

/// What [`lemma_statement_advances`] says, of a function declaration.
pub proof fn lemma_func_decl_advances(
    tokens: Seq<TokenView>,
    pos: int,
    table: Seq<Declaration>,
    nesting: Nesting,
)
    requires
        0 <= pos,
    ensures
        func_decl(tokens, pos, table, nesting).failure is None ==> advanced(
            tokens,
            pos,
            func_decl(tokens, pos, table, nesting),
        ),
        table.is_prefix_of(func_decl(tokens, pos, table, nesting).table),
    decreases tokens.len() - pos, 0int,
{
    if at(tokens, pos, TokenType::Function) && at(tokens, pos + 1, TokenType::Identifier) {
        let named = table.push(
            Declaration { name: tokens[pos + 1].text, kind: TokenType::Function },
        );
        let open = expect(tokens, pos + 2, named, TokenType::LeftParenthesis);
        if open.failure is None {
            lemma_param_list_bounds(tokens, open.pos, named);
            let params = param_list(tokens, open.pos, named);
            if params.failure is None {
                let close = expect(tokens, params.pos, named, TokenType::RightParenthesis);
                if close.failure is None {
                    lemma_block_advances(tokens, close.pos, named, nesting.in_function());
                }
            }
        }
    }
}

/// What [`lemma_statement_advances`] says, of an `if` statement.
pub proof fn lemma_if_stmt_advances(
    tokens: Seq<TokenView>,
    pos: int,
    table: Seq<Declaration>,
    nesting: Nesting,
)
    requires
        0 <= pos,
    ensures
        if_stmt(tokens, pos, table, nesting).failure is None ==> advanced(
            tokens,
            pos,
            if_stmt(tokens, pos, table, nesting),
        ),
        table.is_prefix_of(if_stmt(tokens, pos, table, nesting).table),
    decreases tokens.len() - pos, 0int,
{
    if at(tokens, pos, TokenType::If) {
        lemma_condition_advances(tokens, pos + 1, table);
        let test = condition(tokens, pos + 1, table);
        if test.failure is None {
            lemma_block_advances(tokens, test.pos, table, nesting);
            let body = block(tokens, test.pos, table, nesting);
            if advanced(tokens, pos, body) && at(tokens, body.pos, TokenType::Else) {
                lemma_block_advances(tokens, body.pos + 1, body.table, nesting);
            }
        }
    }
}

/// What [`lemma_statement_advances`] says, of a `while` statement.
pub proof fn lemma_while_stmt_advances(
    tokens: Seq<TokenView>,
    pos: int,
    table: Seq<Declaration>,
    nesting: Nesting,
)
    requires
        0 <= pos,
    ensures
        while_stmt(tokens, pos, table, nesting).failure is None ==> advanced(
            tokens,
            pos,
            while_stmt(tokens, pos, table, nesting),
        ),
        table.is_prefix_of(while_stmt(tokens, pos, table, nesting).table),
    decreases tokens.len() - pos, 0int,
{
    if at(tokens, pos, TokenType::While) {
        lemma_condition_advances(tokens, pos + 1, table);
        let test = condition(tokens, pos + 1, table);
        if test.failure is None {
            lemma_block_advances(tokens, test.pos, table, nesting.in_loop());
        }
    }
}

/// A list of statements ends at or behind its first token, and among the
/// tokens if it is without failure; the declarations made before it stay at
/// the head of the table.
pub proof fn lemma_statements_bounds(
    tokens: Seq<TokenView>,
    pos: int,
    table: Seq<Declaration>,
    nesting: Nesting,
    until: TokenType,
)
    requires
        0 <= pos,
    ensures
        statements(tokens, pos, table, nesting, until).failure is None ==> pos <= statements(
            tokens,
            pos,
            table,
            nesting,
            until,
        ).pos < tokens.len() && at(
            tokens,
            statements(tokens, pos, table, nesting, until).pos,
            until,
        ),
        table.is_prefix_of(statements(tokens, pos, table, nesting, until).table),
    decreases tokens.len() - pos, 2int,
{
    if !at(tokens, pos, until) {
        lemma_statement_advances(tokens, pos, table, nesting);
        let first = statement(tokens, pos, table, nesting);
        if advanced(tokens, pos, first) {
            lemma_statements_bounds(tokens, first.pos, first.table, nesting, until);
        }
    }
}

/// What [`lemma_statement_advances`] says, of a block.
pub proof fn lemma_block_advances(
    tokens: Seq<TokenView>,
    pos: int,
    table: Seq<Declaration>,
    nesting: Nesting,
)
    requires
        0 <= pos,
    ensures
        block(tokens, pos, table, nesting).failure is None ==> advanced(
            tokens,
            pos,
            block(tokens, pos, table, nesting),
        ),
        table.is_prefix_of(block(tokens, pos, table, nesting).table),
    decreases tokens.len() - pos, 3int,
{
    if at(tokens, pos, TokenType::LeftBraces) {
        lemma_statements_bounds(tokens, pos + 1, table, nesting, TokenType::RightBraces);
    }
}

} // verus!
