//! What holds of the grammar whatever the tokens: how the declaration rule
//! and the nesting of loops and functions decide which programs are accepted.

use crate::grammar::{
    accept, advanced, assign_or_call, at, block, call_tail, condition, declared, declared_as,
    declared_name, expect, expression, factor, func_decl, if_stmt, kind_at, lemma_arg_list_bounds,
    lemma_block_advances, lemma_condition_advances, lemma_expression_advances,
    lemma_factor_advances, lemma_param_list_bounds, lemma_statement_advances,
    lemma_statements_bounds, lemma_term_advances, more_args, more_params, param_list, program,
    reject, statement, statements, term, var_decl, while_stmt, width_at, Declaration, ErrorKind,
    Nesting, Outcome,
};
use crate::token::{TokenType, TokenView};
use vstd::prelude::*;

verus! {

/// Whether `large` declares every name that `small` declares, and the two
/// declare the same names as functions.
pub open spec fn extends(small: Seq<Declaration>, large: Seq<Declaration>) -> bool {
    &&& forall|name: Seq<char>| #[trigger] declared(small, name) ==> declared(large, name)
    &&& forall|name: Seq<char>| #[trigger]
        declared_as(small, name, TokenType::Function) ==> declared_as(
            large,
            name,
            TokenType::Function,
        )
    &&& forall|name: Seq<char>| #[trigger]
        declared_as(large, name, TokenType::Function) ==> declared_as(
            small,
            name,
            TokenType::Function,
        )
}

/// Whether `outer` allows what `inner` allows: it is within a loop, or a
/// function, wherever `inner` is.
pub open spec fn allows(inner: Nesting, outer: Nesting) -> bool {
    &&& inner.within_loop ==> outer.within_loop
    &&& inner.within_function ==> outer.within_function
}

/// Whether two outcomes end at the same place in the same way.
pub open spec fn same_walk(a: Outcome, b: Outcome) -> bool {
    a.pos == b.pos && a.failure == b.failure
}

/// A name is declared in a table with one more entry if it was declared
/// before or is the name of that entry.
pub proof fn lemma_declared_push(table: Seq<Declaration>, entry: Declaration, name: Seq<char>)
    ensures
        declared(table.push(entry), name) <==> declared(table, name) || entry.name == name,
        forall|kind: TokenType|
            #![trigger declared_as(table.push(entry), name, kind)]
            declared_as(table.push(entry), name, kind) <==> declared_as(table, name, kind) || (
            entry.name == name && entry.kind == kind),
{
    let pushed = table.push(entry);
    if declared(table, name) {
        let i = choose|i: int| 0 <= i < table.len() && (#[trigger] table[i]).name == name;
        assert(pushed[i].name == name);
    }
    if entry.name == name {
        assert(pushed[table.len() as int].name == name);
    }
    if declared(pushed, name) {
        let i = choose|i: int| 0 <= i < pushed.len() && (#[trigger] pushed[i]).name == name;
        if i < table.len() {
            assert(table[i].name == name);
        }
    }
    assert forall|kind: TokenType|
        #![trigger declared_as(table.push(entry), name, kind)]
        declared_as(pushed, name, kind) <==> declared_as(table, name, kind) || (entry.name == name
            && entry.kind == kind) by {
        if declared_as(table, name, kind) {
            let i = choose|i: int|
                0 <= i < table.len() && (#[trigger] table[i]).name == name && table[i].kind
                    == kind;
            assert(pushed[i].name == name && pushed[i].kind == kind);
        }
        if entry.name == name && entry.kind == kind {
            assert(pushed[table.len() as int].name == name);
        }
        if declared_as(pushed, name, kind) {
            let i = choose|i: int|
                0 <= i < pushed.len() && (#[trigger] pushed[i]).name == name && pushed[i].kind
                    == kind;
            if i < table.len() {
                assert(table[i].name == name && table[i].kind == kind);
            }
        }
    }
}

/// The same declaration added to two tables keeps the one an extension of
/// the other.
pub proof fn lemma_extends_push(
    small: Seq<Declaration>,
    large: Seq<Declaration>,
    entry: Declaration,
)
    requires
        extends(small, large),
    ensures
        extends(small.push(entry), large.push(entry)),
{
    assert forall|name: Seq<char>| #[trigger]
        declared(small.push(entry), name) implies declared(large.push(entry), name) by {
        lemma_declared_push(small, entry, name);
        lemma_declared_push(large, entry, name);
    }
    assert forall|name: Seq<char>| #[trigger]
        declared_as(small.push(entry), name, TokenType::Function) implies declared_as(
        large.push(entry),
        name,
        TokenType::Function,
    ) by {
        lemma_declared_push(small, entry, name);
        lemma_declared_push(large, entry, name);
    }
    assert forall|name: Seq<char>| #[trigger]
        declared_as(large.push(entry), name, TokenType::Function) implies declared_as(
        small.push(entry),
        name,
        TokenType::Function,
    ) by {
        lemma_declared_push(small, entry, name);
        lemma_declared_push(large, entry, name);
    }
}

/// What was declared stays declared in every table that begins with the
/// table it was declared in.
pub proof fn lemma_prefix_keeps_declarations(
    table: Seq<Declaration>,
    later: Seq<Declaration>,
    name: Seq<char>,
    kind: TokenType,
)
    requires
        table.is_prefix_of(later),
    ensures
        declared(table, name) ==> declared(later, name),
        declared_as(table, name, kind) ==> declared_as(later, name, kind),
{
    if declared(table, name) {
        let i = choose|i: int| 0 <= i < table.len() && (#[trigger] table[i]).name == name;
        assert(later[i] == table[i]);
    }
    if declared_as(table, name, kind) {
        let i = choose|i: int|
            0 <= i < table.len() && (#[trigger] table[i]).name == name && table[i].kind == kind;
        assert(later[i] == table[i]);
    }
}

/// A statement that begins with a name that has not been declared is refused
/// at that name, as a declaration error, whatever follows the name.
pub proof fn lemma_undeclared_name_is_refused(
    tokens: Seq<TokenView>,
    pos: int,
    table: Seq<Declaration>,
    nesting: Nesting,
)
    requires
        at(tokens, pos, TokenType::Identifier),
        !declared(table, tokens[pos].text),
    ensures
        statement(tokens, pos, table, nesting) == reject(
            pos,
            table,
            ErrorKind::Declaration,
            None,
        ),
        forall|until: TokenType|
            until != TokenType::Identifier ==> #[trigger] statements(
                tokens,
                pos,
                table,
                nesting,
                until,
            ) == reject(pos, table, ErrorKind::Declaration, None),
{
}

/// A statement that begins with a declared name passes the declaration
/// rule: it goes on as the token behind the name says.
pub proof fn lemma_declared_name_is_read(
    tokens: Seq<TokenView>,
    pos: int,
    table: Seq<Declaration>,
    nesting: Nesting,
)
    requires
        at(tokens, pos, TokenType::Identifier),
        declared(table, tokens[pos].text),
    ensures
        declared_name(tokens, pos, table) == accept(pos + 1, table),
        statement(tokens, pos, table, nesting).failure matches Some(failure) ==> statement(
            tokens,
            pos,
            table,
            nesting,
        ).pos > pos,
{
    lemma_expression_advances(tokens, pos + 2, table);
    if pos + 1 < tokens.len() {
        lemma_arg_list_bounds(tokens, pos + 2, table);
    }
    if pos + 3 < tokens.len() {
        lemma_arg_list_bounds(tokens, pos + 4, table);
    }
}

/// The first argument of a call is refused, as a declaration error, if it has
/// not been declared.
pub proof fn lemma_undeclared_argument_is_refused(
    tokens: Seq<TokenView>,
    pos: int,
    table: Seq<Declaration>,
)
    requires
        at(tokens, pos, TokenType::LeftParenthesis),
        at(tokens, pos + 1, TokenType::Identifier),
        !declared(table, tokens[pos + 1].text),
    ensures
        call_tail(tokens, pos, table) == reject(pos + 1, table, ErrorKind::Declaration, None),
{
}

/// An argument behind a comma is refused, as a declaration error, if it has
/// not been declared.
pub proof fn lemma_undeclared_later_argument_is_refused(
    tokens: Seq<TokenView>,
    pos: int,
    table: Seq<Declaration>,
)
    requires
        at(tokens, pos, TokenType::Comma),
        at(tokens, pos + 1, TokenType::Identifier),
        !declared(table, tokens[pos + 1].text),
    ensures
        more_args(tokens, pos, table) == reject(pos + 1, table, ErrorKind::Declaration, None),
{
}

/// A variable declaration declares its name with its width keyword, and the
/// declaration is there for every statement behind it.
pub proof fn lemma_var_decl_declares(tokens: Seq<TokenView>, pos: int, table: Seq<Declaration>)
    requires
        var_decl(tokens, pos, table).failure is None,
    ensures
        var_decl(tokens, pos, table).pos == pos + 3,
        var_decl(tokens, pos, table).table == table.push(
            Declaration { name: tokens[pos + 1].text, kind: tokens[pos].kind },
        ),
        declared(var_decl(tokens, pos, table).table, tokens[pos + 1].text),
        declared_as(var_decl(tokens, pos, table).table, tokens[pos + 1].text, tokens[pos].kind),
{
    lemma_declared_push(
        table,
        Declaration { name: tokens[pos + 1].text, kind: tokens[pos].kind },
        tokens[pos + 1].text,
    );
}

/// A function declaration declares its name as a function, and the
/// declaration is there for every statement behind it.
pub proof fn lemma_func_decl_declares(
    tokens: Seq<TokenView>,
    pos: int,
    table: Seq<Declaration>,
    nesting: Nesting,
)
    requires
        0 <= pos,
        func_decl(tokens, pos, table, nesting).failure is None,
    ensures
        declared_as(
            func_decl(tokens, pos, table, nesting).table,
            tokens[pos + 1].text,
            TokenType::Function,
        ),
{
    let entry = Declaration { name: tokens[pos + 1].text, kind: TokenType::Function };
    let named = table.push(entry);
    lemma_declared_push(table, entry, tokens[pos + 1].text);
    lemma_param_list_bounds(tokens, pos + 3, named);
    let params = param_list(tokens, pos + 3, named);
    lemma_block_advances(tokens, params.pos + 1, named, nesting.in_function());
    lemma_prefix_keeps_declarations(
        named,
        func_decl(tokens, pos, table, nesting).table,
        tokens[pos + 1].text,
        TokenType::Function,
    );
}

/// No statement takes a declaration back: what was declared before a list of
/// statements is declared behind it, and so behind a whole program.
pub proof fn lemma_declarations_persist(
    tokens: Seq<TokenView>,
    pos: int,
    table: Seq<Declaration>,
    nesting: Nesting,
    until: TokenType,
    name: Seq<char>,
    kind: TokenType,
)
    requires
        0 <= pos,
    ensures
        declared(table, name) ==> declared(statement(tokens, pos, table, nesting).table, name),
        declared_as(table, name, kind) ==> declared_as(
            statement(tokens, pos, table, nesting).table,
            name,
            kind,
        ),
        declared(table, name) ==> declared(
            statements(tokens, pos, table, nesting, until).table,
            name,
        ),
        declared_as(table, name, kind) ==> declared_as(
            statements(tokens, pos, table, nesting, until).table,
            name,
            kind,
        ),
{
    lemma_statement_advances(tokens, pos, table, nesting);
    lemma_statements_bounds(tokens, pos, table, nesting, until);
    lemma_prefix_keeps_declarations(
        table,
        statement(tokens, pos, table, nesting).table,
        name,
        kind,
    );
    lemma_prefix_keeps_declarations(
        table,
        statements(tokens, pos, table, nesting, until).table,
        name,
        kind,
    );
}

/// `break` is a statement only inside a loop: outside, it is refused as a
/// context error; inside, `break ;` is read.
pub proof fn lemma_break_needs_loop(
    tokens: Seq<TokenView>,
    pos: int,
    table: Seq<Declaration>,
    nesting: Nesting,
)
    requires
        at(tokens, pos, TokenType::Break),
    ensures
        !nesting.within_loop ==> statement(tokens, pos, table, nesting) == reject(
            pos,
            table,
            ErrorKind::Context,
            None,
        ),
        nesting.within_loop ==> statement(tokens, pos, table, nesting) == expect(
            tokens,
            pos + 1,
            table,
            TokenType::Semicolon,
        ),
        nesting.within_loop && at(tokens, pos + 1, TokenType::Semicolon) ==> statement(
            tokens,
            pos,
            table,
            nesting,
        ) == accept(pos + 2, table),
{
}

/// `continue` is a statement only inside a loop: outside, it is refused as a
/// context error; inside, `continue ;` is read.
pub proof fn lemma_continue_needs_loop(
    tokens: Seq<TokenView>,
    pos: int,
    table: Seq<Declaration>,
    nesting: Nesting,
)
    requires
        at(tokens, pos, TokenType::Continue),
    ensures
        !nesting.within_loop ==> statement(tokens, pos, table, nesting) == reject(
            pos,
            table,
            ErrorKind::Context,
            None,
        ),
        nesting.within_loop ==> statement(tokens, pos, table, nesting) == expect(
            tokens,
            pos + 1,
            table,
            TokenType::Semicolon,
        ),
        nesting.within_loop && at(tokens, pos + 1, TokenType::Semicolon) ==> statement(
            tokens,
            pos,
            table,
            nesting,
        ) == accept(pos + 2, table),
{
}

/// `return` is a statement only inside a function: outside, it is refused as
/// a context error; inside, `return ;` is read, and so is `return`, an
/// expression and `;`.
pub proof fn lemma_return_needs_function(
    tokens: Seq<TokenView>,
    pos: int,
    table: Seq<Declaration>,
    nesting: Nesting,
)
    requires
        0 <= pos,
        at(tokens, pos, TokenType::Return),
    ensures
        !nesting.within_function ==> statement(tokens, pos, table, nesting) == reject(
            pos,
            table,
            ErrorKind::Context,
            None,
        ),
        nesting.within_function && at(tokens, pos + 1, TokenType::Semicolon) ==> statement(
            tokens,
            pos,
            table,
            nesting,
        ) == accept(pos + 2, table),
        nesting.within_function && expression(tokens, pos + 1, table).failure is None && at(
            tokens,
            expression(tokens, pos + 1, table).pos,
            TokenType::Semicolon,
        ) ==> statement(tokens, pos, table, nesting) == accept(
            expression(tokens, pos + 1, table).pos + 1,
            table,
        ),
{
    lemma_expression_advances(tokens, pos + 1, table);
    if at(tokens, pos + 1, TokenType::Semicolon) {
        lemma_term_advances(tokens, pos + 1, table);
        lemma_factor_advances(tokens, pos + 1, table);
    }
}

/// The statements of the body of a `while` stand inside a loop, wherever the
/// `while` itself stands: the statement is read as its condition and then a
/// block within a loop.
pub proof fn lemma_while_body_is_within_loop(
    tokens: Seq<TokenView>,
    pos: int,
    table: Seq<Declaration>,
    nesting: Nesting,
)
    requires
        0 <= pos,
        at(tokens, pos, TokenType::While),
        condition(tokens, pos + 1, table).failure is None,
    ensures
        statement(tokens, pos, table, nesting) == block(
            tokens,
            condition(tokens, pos + 1, table).pos,
            table,
            nesting.in_loop(),
        ),
        nesting.in_loop().within_loop,
        nesting.in_loop().within_function == nesting.within_function,
{
    lemma_condition_advances(tokens, pos + 1, table);
}

/// The statements of the body of a function stand inside a function,
/// wherever the declaration itself stands.
pub proof fn lemma_function_body_is_within_function(
    tokens: Seq<TokenView>,
    pos: int,
    table: Seq<Declaration>,
    nesting: Nesting,
)
    requires
        0 <= pos,
        at(tokens, pos, TokenType::Function),
        at(tokens, pos + 1, TokenType::Identifier),
        at(tokens, pos + 2, TokenType::LeftParenthesis),
        param_list(
            tokens,
            pos + 3,
            table.push(Declaration { name: tokens[pos + 1].text, kind: TokenType::Function }),
        ).failure is None,
        at(
            tokens,
            param_list(
                tokens,
                pos + 3,
                table.push(Declaration { name: tokens[pos + 1].text, kind: TokenType::Function }),
            ).pos,
            TokenType::RightParenthesis,
        ),
    ensures
        statement(tokens, pos, table, nesting) == block(
            tokens,
            param_list(
                tokens,
                pos + 3,
                table.push(Declaration { name: tokens[pos + 1].text, kind: TokenType::Function }),
            ).pos + 1,
            table.push(Declaration { name: tokens[pos + 1].text, kind: TokenType::Function }),
            nesting.in_function(),
        ),
        nesting.in_function().within_function,
        nesting.in_function().within_loop == nesting.within_loop,
{
    let named = table.push(Declaration { name: tokens[pos + 1].text, kind: TokenType::Function });
    lemma_param_list_bounds(tokens, pos + 3, named);
}

/// A block that holds `break ;` alone, or `continue ;` alone, is read inside
/// a loop; one that holds `return ;` alone is read inside a function.
pub proof fn lemma_jump_alone_in_body(
    tokens: Seq<TokenView>,
    pos: int,
    table: Seq<Declaration>,
    nesting: Nesting,
)
    requires
        0 <= pos,
        at(tokens, pos, TokenType::LeftBraces),
        at(tokens, pos + 2, TokenType::Semicolon),
        at(tokens, pos + 3, TokenType::RightBraces),
        (nesting.within_loop && (at(tokens, pos + 1, TokenType::Break) || at(
            tokens,
            pos + 1,
            TokenType::Continue,
        ))) || (nesting.within_function && at(tokens, pos + 1, TokenType::Return)),
    ensures
        block(tokens, pos, table, nesting) == accept(pos + 4, table),
{
    let first = statement(tokens, pos + 1, table, nesting);
    assert(first == accept(pos + 3, table));
    assert(statements(tokens, pos + 3, table, nesting, TokenType::RightBraces) == accept(
        pos + 3,
        table,
    ));
    assert(statements(tokens, pos + 1, table, nesting, TokenType::RightBraces) == accept(
        pos + 3,
        table,
    ));
}

/// An expression is read in the same way whatever has been declared.
pub proof fn lemma_expression_ignores_table(
    tokens: Seq<TokenView>,
    pos: int,
    one: Seq<Declaration>,
    other: Seq<Declaration>,
)
    requires
        0 <= pos,
    ensures
        same_walk(expression(tokens, pos, one), expression(tokens, pos, other)),
    decreases tokens.len() - pos, 2int,
{
    lemma_term_ignores_table(tokens, pos, one, other);
    let first = term(tokens, pos, one);
    if advanced(tokens, pos, first) && (at(tokens, first.pos, TokenType::Plus) || at(
        tokens,
        first.pos,
        TokenType::Minus,
    )) {
        lemma_expression_ignores_table(tokens, first.pos + 1, one, other);
    }
}

/// What [`lemma_expression_ignores_table`] says, of a term.
pub proof fn lemma_term_ignores_table(
    tokens: Seq<TokenView>,
    pos: int,
    one: Seq<Declaration>,
    other: Seq<Declaration>,
)
    requires
        0 <= pos,
    ensures
        same_walk(term(tokens, pos, one), term(tokens, pos, other)),
    decreases tokens.len() - pos, 1int,
{
    lemma_factor_ignores_table(tokens, pos, one, other);
    let first = factor(tokens, pos, one);
    if advanced(tokens, pos, first) && (at(tokens, first.pos, TokenType::Star) || at(
        tokens,
        first.pos,
        TokenType::Slash,
    )) {
        lemma_term_ignores_table(tokens, first.pos + 1, one, other);
    }
}

/// What [`lemma_expression_ignores_table`] says, of a factor.
pub proof fn lemma_factor_ignores_table(
    tokens: Seq<TokenView>,
    pos: int,
    one: Seq<Declaration>,
    other: Seq<Declaration>,
)
    requires
        0 <= pos,
    ensures
        same_walk(factor(tokens, pos, one), factor(tokens, pos, other)),
    decreases tokens.len() - pos, 0int,
{
    if at(tokens, pos, TokenType::LeftParenthesis) {
        lemma_expression_ignores_table(tokens, pos + 1, one, other);
    }
}

/// A parameter list is read in the same way whatever has been declared.
pub proof fn lemma_param_list_ignores_table(
    tokens: Seq<TokenView>,
    pos: int,
    one: Seq<Declaration>,
    other: Seq<Declaration>,
)
    ensures
        same_walk(param_list(tokens, pos, one), param_list(tokens, pos, other)),
        same_walk(more_params(tokens, pos, one), more_params(tokens, pos, other)),
    decreases tokens.len() - pos,
{
    if at(tokens, pos, TokenType::Comma) && width_at(tokens, pos + 1) && at(
        tokens,
        pos + 2,
        TokenType::Identifier,
    ) {
        lemma_param_list_ignores_table(tokens, pos + 3, one, other);
    }
    if width_at(tokens, pos) && at(tokens, pos + 1, TokenType::Identifier) {
        lemma_param_list_ignores_table(tokens, pos + 2, one, other);
    }
}

/// Arguments that are read with one table are read with every table that
/// extends it.
pub proof fn lemma_more_args_are_monotonic(
    tokens: Seq<TokenView>,
    pos: int,
    small: Seq<Declaration>,
    large: Seq<Declaration>,
)
    requires
        extends(small, large),
        more_args(tokens, pos, small).failure is None,
    ensures
        same_walk(more_args(tokens, pos, small), more_args(tokens, pos, large)),
    decreases tokens.len() - pos,
{
    if at(tokens, pos, TokenType::Comma) {
        lemma_more_args_are_monotonic(tokens, pos + 2, small, large);
    }
}

/// A call that is read with one table is read with every table that extends
/// it.
pub proof fn lemma_call_tail_is_monotonic(
    tokens: Seq<TokenView>,
    pos: int,
    small: Seq<Declaration>,
    large: Seq<Declaration>,
)
    requires
        extends(small, large),
        call_tail(tokens, pos, small).failure is None,
    ensures
        same_walk(call_tail(tokens, pos, small), call_tail(tokens, pos, large)),
{
    if at(tokens, pos + 1, TokenType::Identifier) {
        lemma_more_args_are_monotonic(tokens, pos + 2, small, large);
    }
}

/// An assignment or call that is read with one table is read with every
/// table that extends it.
pub proof fn lemma_assign_or_call_is_monotonic(
    tokens: Seq<TokenView>,
    pos: int,
    small: Seq<Declaration>,
    large: Seq<Declaration>,
)
    requires
        0 <= pos,
        extends(small, large),
        assign_or_call(tokens, pos, small).failure is None,
    ensures
        same_walk(assign_or_call(tokens, pos, small), assign_or_call(tokens, pos, large)),
        assign_or_call(tokens, pos, small).table == small,
        assign_or_call(tokens, pos, large).table == large,
{
    lemma_expression_advances(tokens, pos + 2, small);
    lemma_expression_advances(tokens, pos + 2, large);
    lemma_expression_ignores_table(tokens, pos + 2, small, large);
    if at(tokens, pos + 1, TokenType::Assing) {
        if at(tokens, pos + 2, TokenType::Identifier) && declared_as(
            small,
            tokens[pos + 2].text,
            TokenType::Function,
        ) {
            lemma_call_tail_is_monotonic(tokens, pos + 3, small, large);
            if pos + 3 < tokens.len() {
                lemma_arg_list_bounds(tokens, pos + 4, small);
                lemma_arg_list_bounds(tokens, pos + 4, large);
            }
        }
    } else if at(tokens, pos + 1, TokenType::LeftParenthesis) {
        lemma_call_tail_is_monotonic(tokens, pos + 1, small, large);
        lemma_arg_list_bounds(tokens, pos + 2, small);
        lemma_arg_list_bounds(tokens, pos + 2, large);
    }
}

/// A statement that is read is read as well where more names have been
/// declared and where more is allowed: with every table that extends the
/// table at hand, and inside every loop and function that it stands in and
/// any further ones. It ends at the same place, and the table behind it
/// extends the table that it left before.
pub proof fn lemma_statement_is_monotonic(
    tokens: Seq<TokenView>,
    pos: int,
    small: Seq<Declaration>,
    large: Seq<Declaration>,
    inner: Nesting,
    outer: Nesting,
)
    requires
        0 <= pos,
        extends(small, large),
        allows(inner, outer),
        statement(tokens, pos, small, inner).failure is None,
    ensures
        same_walk(statement(tokens, pos, small, inner), statement(tokens, pos, large, outer)),
        extends(
            statement(tokens, pos, small, inner).table,
            statement(tokens, pos, large, outer).table,
        ),
    decreases tokens.len() - pos, 1int,
{
    if width_at(tokens, pos) {
        lemma_extends_push(
            small,
            large,
            Declaration { name: tokens[pos + 1].text, kind: tokens[pos].kind },
        );
    } else if at(tokens, pos, TokenType::Function) {
        lemma_func_decl_is_monotonic(tokens, pos, small, large, inner, outer);
    } else if at(tokens, pos, TokenType::If) {
        lemma_if_stmt_is_monotonic(tokens, pos, small, large, inner, outer);
    } else if at(tokens, pos, TokenType::While) {
        lemma_while_stmt_is_monotonic(tokens, pos, small, large, inner, outer);
    } else if at(tokens, pos, TokenType::Print) {
        lemma_expression_ignores_table(tokens, pos + 2, small, large);
        lemma_expression_advances(tokens, pos + 2, small);
        lemma_expression_advances(tokens, pos + 2, large);
    } else if at(tokens, pos, TokenType::Return) {
        lemma_expression_ignores_table(tokens, pos + 1, small, large);
        lemma_expression_advances(tokens, pos + 1, small);
        lemma_expression_advances(tokens, pos + 1, large);
    } else if at(tokens, pos, TokenType::Identifier) {
        lemma_assign_or_call_is_monotonic(tokens, pos, small, large);
    }
}

/// What [`lemma_statement_is_monotonic`] says, of a function declaration.
pub proof fn lemma_func_decl_is_monotonic(
    tokens: Seq<TokenView>,
    pos: int,
    small: Seq<Declaration>,
    large: Seq<Declaration>,
    inner: Nesting,
    outer: Nesting,
)
    requires
        0 <= pos,
        extends(small, large),
        allows(inner, outer),
        func_decl(tokens, pos, small, inner).failure is None,
    ensures
        same_walk(func_decl(tokens, pos, small, inner), func_decl(tokens, pos, large, outer)),
        extends(
            func_decl(tokens, pos, small, inner).table,
            func_decl(tokens, pos, large, outer).table,
        ),
    decreases tokens.len() - pos, 0int,
{
    let entry = Declaration { name: tokens[pos + 1].text, kind: TokenType::Function };
    lemma_extends_push(small, large, entry);
    lemma_param_list_ignores_table(tokens, pos + 3, small.push(entry), large.push(entry));
    lemma_param_list_bounds(tokens, pos + 3, small.push(entry));
    lemma_param_list_bounds(tokens, pos + 3, large.push(entry));
    let params = param_list(tokens, pos + 3, small.push(entry));
    lemma_block_is_monotonic(
        tokens,
        params.pos + 1,
        small.push(entry),
        large.push(entry),
        inner.in_function(),
        outer.in_function(),
    );
}

/// What [`lemma_statement_is_monotonic`] says, of an `if` statement.
pub proof fn lemma_if_stmt_is_monotonic(
    tokens: Seq<TokenView>,
    pos: int,
    small: Seq<Declaration>,
    large: Seq<Declaration>,
    inner: Nesting,
    outer: Nesting,
)
    requires
        0 <= pos,
        extends(small, large),
        allows(inner, outer),
        if_stmt(tokens, pos, small, inner).failure is None,
    ensures
        same_walk(if_stmt(tokens, pos, small, inner), if_stmt(tokens, pos, large, outer)),
        extends(if_stmt(tokens, pos, small, inner).table, if_stmt(tokens, pos, large, outer).table),
    decreases tokens.len() - pos, 0int,
{
    lemma_expression_ignores_table(tokens, pos + 2, small, large);
    lemma_condition_advances(tokens, pos + 1, small);
    lemma_condition_advances(tokens, pos + 1, large);
    let test = condition(tokens, pos + 1, small);
    lemma_block_is_monotonic(tokens, test.pos, small, large, inner, outer);
    lemma_block_advances(tokens, test.pos, small, inner);
    let body = block(tokens, test.pos, small, inner);
    let wider = block(tokens, test.pos, large, outer);
    if at(tokens, body.pos, TokenType::Else) {
        lemma_block_is_monotonic(tokens, body.pos + 1, body.table, wider.table, inner, outer);
    }
}

/// What [`lemma_statement_is_monotonic`] says, of a `while` statement.
pub proof fn lemma_while_stmt_is_monotonic(
    tokens: Seq<TokenView>,
    pos: int,
    small: Seq<Declaration>,
    large: Seq<Declaration>,
    inner: Nesting,
    outer: Nesting,
)
    requires
        0 <= pos,
        extends(small, large),
        allows(inner, outer),
        while_stmt(tokens, pos, small, inner).failure is None,
    ensures
        same_walk(while_stmt(tokens, pos, small, inner), while_stmt(tokens, pos, large, outer)),
        extends(
            while_stmt(tokens, pos, small, inner).table,
            while_stmt(tokens, pos, large, outer).table,
        ),
    decreases tokens.len() - pos, 0int,
{
    lemma_expression_ignores_table(tokens, pos + 2, small, large);
    lemma_condition_advances(tokens, pos + 1, small);
    lemma_condition_advances(tokens, pos + 1, large);
    let test = condition(tokens, pos + 1, small);
    lemma_block_is_monotonic(tokens, test.pos, small, large, inner.in_loop(), outer.in_loop());
}

/// What [`lemma_statement_is_monotonic`] says, of a list of statements.
pub proof fn lemma_statements_are_monotonic(
    tokens: Seq<TokenView>,
    pos: int,
    small: Seq<Declaration>,
    large: Seq<Declaration>,
    inner: Nesting,
    outer: Nesting,
    until: TokenType,
)
    requires
        0 <= pos,
        extends(small, large),
        allows(inner, outer),
        statements(tokens, pos, small, inner, until).failure is None,
    ensures
        same_walk(
            statements(tokens, pos, small, inner, until),
            statements(tokens, pos, large, outer, until),
        ),
        extends(
            statements(tokens, pos, small, inner, until).table,
            statements(tokens, pos, large, outer, until).table,
        ),
    decreases tokens.len() - pos, 2int,
{
    if !at(tokens, pos, until) {
        let first = statement(tokens, pos, small, inner);
        lemma_statement_advances(tokens, pos, small, inner);
        lemma_statement_is_monotonic(tokens, pos, small, large, inner, outer);
        let wider = statement(tokens, pos, large, outer);
        lemma_statements_are_monotonic(
            tokens,
            first.pos,
            first.table,
            wider.table,
            inner,
            outer,
            until,
        );
    }
}

/// What [`lemma_statement_is_monotonic`] says, of a block.
pub proof fn lemma_block_is_monotonic(
    tokens: Seq<TokenView>,
    pos: int,
    small: Seq<Declaration>,
    large: Seq<Declaration>,
    inner: Nesting,
    outer: Nesting,
)
    requires
        0 <= pos,
        extends(small, large),
        allows(inner, outer),
        block(tokens, pos, small, inner).failure is None,
    ensures
        same_walk(block(tokens, pos, small, inner), block(tokens, pos, large, outer)),
        extends(block(tokens, pos, small, inner).table, block(tokens, pos, large, outer).table),
    decreases tokens.len() - pos, 3int,
{
    lemma_statements_are_monotonic(
        tokens,
        pos + 1,
        small,
        large,
        inner,
        outer,
        TokenType::RightBraces,
    );
}

/// A program that is accepted stays accepted with a declaration put before
/// it: where the statements from `pos` on are read with the table `table`,
/// they are read with every table that extends it.
pub proof fn lemma_program_is_monotonic(
    tokens: Seq<TokenView>,
    pos: int,
    small: Seq<Declaration>,
    large: Seq<Declaration>,
    inner: Nesting,
    outer: Nesting,
)
    requires
        0 <= pos,
        extends(small, large),
        allows(inner, outer),
        program(tokens, pos, small, inner).failure is None,
    ensures
        program(tokens, pos, large, outer).failure is None,
        program(tokens, pos, large, outer).pos == program(tokens, pos, small, inner).pos,
{
    lemma_statements_are_monotonic(tokens, pos, small, large, inner, outer, TokenType::EOF);
}

/// Whether the token at `place` and the name behind it declare `entry`: a
/// width keyword or `function`, then a name.
pub open spec fn introduces(tokens: Seq<TokenView>, place: int, entry: Declaration) -> bool {
    &&& kind_at(tokens, place) == Some(entry.kind)
    &&& entry.kind.is_width() || entry.kind is Function
    &&& at(tokens, place + 1, TokenType::Identifier)
    &&& entry.name == tokens[place + 1].text
}

/// Whether a declaration of `entry` stands among the tokens from `from` up to,
/// and not including, `to`.
pub open spec fn introduced_between(
    tokens: Seq<TokenView>,
    from: int,
    to: int,
    entry: Declaration,
) -> bool {
    exists|place: int| from <= place && place + 1 < to && #[trigger] introduces(tokens, place, entry)
}

/// Whether `o` is a failure of the kind `kind`.
pub open spec fn fails_by(o: Outcome, kind: ErrorKind) -> bool {
    o.failure matches Some(failure) && failure.kind == kind
}

/// Whether the outcome `o` of a production begun at `pos` with `table` is
/// accounted for by the tokens it has read:
/// it ends at or behind `pos`; its table begins with `table`, and each further
/// entry is declared among the tokens read; a declaration error stands at a
/// name that its table does not hold; a context error stands at `break`,
/// `continue` or `return`.
pub open spec fn grounded(
    tokens: Seq<TokenView>,
    pos: int,
    table: Seq<Declaration>,
    o: Outcome,
) -> bool {
    &&& pos <= o.pos
    &&& table.is_prefix_of(o.table)
    &&& forall|i: int|
        table.len() <= i < o.table.len() ==> introduced_between(
            tokens,
            pos,
            o.pos,
            #[trigger] o.table[i],
        )
    &&& fails_by(o, ErrorKind::Declaration) ==> at(tokens, o.pos, TokenType::Identifier)
        && !declared(o.table, tokens[o.pos].text)
    &&& fails_by(o, ErrorKind::Context) ==> at(tokens, o.pos, TokenType::Break) || at(
        tokens,
        o.pos,
        TokenType::Continue,
    ) || at(tokens, o.pos, TokenType::Return)
}

/// A declaration that stands in a range of tokens stands in every range that
/// holds the range.
pub proof fn lemma_introduced_in_wider_range(
    tokens: Seq<TokenView>,
    from: int,
    to: int,
    wider_from: int,
    wider_to: int,
    entry: Declaration,
)
    requires
        wider_from <= from,
        to <= wider_to,
        introduced_between(tokens, from, to, entry),
    ensures
        introduced_between(tokens, wider_from, wider_to, entry),
{
    let place = choose|place: int|
        from <= place && place + 1 < to && #[trigger] introduces(tokens, place, entry);
    assert(wider_from <= place && place + 1 < wider_to && introduces(tokens, place, entry));
}

/// Two productions, one behind the other, are accounted for together if each
/// is.
pub proof fn lemma_grounded_in_sequence(
    tokens: Seq<TokenView>,
    pos: int,
    table: Seq<Declaration>,
    first: Outcome,
    second: Outcome,
)
    requires
        grounded(tokens, pos, table, first),
        grounded(tokens, first.pos, first.table, second),
    ensures
        grounded(tokens, pos, table, second),
{
    assert forall|i: int| table.len() <= i < second.table.len() implies introduced_between(
        tokens,
        pos,
        second.pos,
        #[trigger] second.table[i],
    ) by {
        if i < first.table.len() {
            assert(second.table[i] == first.table[i]);
            lemma_introduced_in_wider_range(
                tokens,
                pos,
                first.pos,
                pos,
                second.pos,
                first.table[i],
            );
        } else {
            lemma_introduced_in_wider_range(
                tokens,
                first.pos,
                second.pos,
                pos,
                second.pos,
                second.table[i],
            );
        }
    }
}

/// An outcome that leaves the table as it was is accounted for if it ends at
/// or behind the place where it began and fails, if it does, by syntax.
pub proof fn lemma_grounded_without_declaration(
    tokens: Seq<TokenView>,
    pos: int,
    table: Seq<Declaration>,
    o: Outcome,
)
    requires
        pos <= o.pos,
        o.table == table,
        o.failure matches Some(failure) ==> failure.kind is Syntax,
    ensures
        grounded(tokens, pos, table, o),
{
}

/// An expression fails by syntax only.
pub proof fn lemma_expression_fails_by_syntax(
    tokens: Seq<TokenView>,
    pos: int,
    table: Seq<Declaration>,
)
    requires
        0 <= pos,
    ensures
        expression(tokens, pos, table).failure matches Some(failure) ==> failure.kind is Syntax,
        term(tokens, pos, table).failure matches Some(failure) ==> failure.kind is Syntax,
        factor(tokens, pos, table).failure matches Some(failure) ==> failure.kind is Syntax,
    decreases tokens.len() - pos,
{
    if at(tokens, pos, TokenType::LeftParenthesis) {
        lemma_expression_fails_by_syntax(tokens, pos + 1, table);
    }
    let first = factor(tokens, pos, table);
    if advanced(tokens, pos, first) && first.pos < tokens.len() {
        lemma_expression_fails_by_syntax(tokens, first.pos + 1, table);
    }
    let sum = term(tokens, pos, table);
    if advanced(tokens, pos, sum) && sum.pos < tokens.len() {
        lemma_expression_fails_by_syntax(tokens, sum.pos + 1, table);
    }
}

/// A parameter list fails by syntax only.
pub proof fn lemma_param_list_fails_by_syntax(
    tokens: Seq<TokenView>,
    pos: int,
    table: Seq<Declaration>,
)
    ensures
        param_list(tokens, pos, table).failure matches Some(failure) ==> failure.kind is Syntax,
        more_params(tokens, pos, table).failure matches Some(failure) ==> failure.kind is Syntax,
    decreases tokens.len() - pos,
{
    if at(tokens, pos, TokenType::Comma) && width_at(tokens, pos + 1) && at(
        tokens,
        pos + 2,
        TokenType::Identifier,
    ) {
        lemma_param_list_fails_by_syntax(tokens, pos + 3, table);
    }
    if width_at(tokens, pos) && at(tokens, pos + 1, TokenType::Identifier) {
        lemma_param_list_fails_by_syntax(tokens, pos + 2, table);
    }
}

/// The arguments of a call are accounted for.
pub proof fn lemma_more_args_are_grounded(
    tokens: Seq<TokenView>,
    pos: int,
    table: Seq<Declaration>,
)
    requires
        0 <= pos <= tokens.len(),
    ensures
        grounded(tokens, pos, table, more_args(tokens, pos, table)),
        more_args(tokens, pos, table).table == table,
    decreases tokens.len() - pos,
{
    if at(tokens, pos, TokenType::Comma) && declared_name(tokens, pos + 1, table).failure is None {
        lemma_more_args_are_grounded(tokens, pos + 2, table);
    }
}

/// A call is accounted for.
pub proof fn lemma_call_tail_is_grounded(
    tokens: Seq<TokenView>,
    pos: int,
    table: Seq<Declaration>,
)
    requires
        0 <= pos,
    ensures
        grounded(tokens, pos, table, call_tail(tokens, pos, table)),
        call_tail(tokens, pos, table).table == table,
{
    if at(tokens, pos, TokenType::LeftParenthesis) {
        lemma_arg_list_bounds(tokens, pos + 1, table);
        if at(tokens, pos + 1, TokenType::Identifier) && declared_name(
            tokens,
            pos + 1,
            table,
        ).failure is None {
            lemma_more_args_are_grounded(tokens, pos + 2, table);
        }
    }
}

/// A statement is accounted for by the tokens it has read, however it ends.
pub proof fn lemma_statement_is_grounded(
    tokens: Seq<TokenView>,
    pos: int,
    table: Seq<Declaration>,
    nesting: Nesting,
)
    requires
        0 <= pos,
    ensures
        grounded(tokens, pos, table, statement(tokens, pos, table, nesting)),
    decreases tokens.len() - pos, 1int,
{
    let o = statement(tokens, pos, table, nesting);
    if width_at(tokens, pos) {
        if at(tokens, pos + 1, TokenType::Identifier) {
            let entry = Declaration { name: tokens[pos + 1].text, kind: tokens[pos].kind };
            assert(introduces(tokens, pos, entry));
            assert(o.table == table.push(entry));
            assert forall|i: int| table.len() <= i < o.table.len() implies introduced_between(
                tokens,
                pos,
                o.pos,
                #[trigger] o.table[i],
            ) by {
                assert(o.table[i] == entry);
            }
        }
    } else if at(tokens, pos, TokenType::Function) {
        lemma_func_decl_is_grounded(tokens, pos, table, nesting);
    } else if at(tokens, pos, TokenType::If) {
        lemma_if_stmt_is_grounded(tokens, pos, table, nesting);
    } else if at(tokens, pos, TokenType::While) {
        lemma_while_stmt_is_grounded(tokens, pos, table, nesting);
    } else if at(tokens, pos, TokenType::Print) {
        lemma_expression_advances(tokens, pos + 2, table);
        lemma_expression_fails_by_syntax(tokens, pos + 2, table);
    } else if at(tokens, pos, TokenType::Return) {
        lemma_expression_advances(tokens, pos + 1, table);
        lemma_expression_fails_by_syntax(tokens, pos + 1, table);
    } else if at(tokens, pos, TokenType::Identifier) {
        lemma_expression_advances(tokens, pos + 2, table);
        lemma_expression_fails_by_syntax(tokens, pos + 2, table);
        lemma_call_tail_is_grounded(tokens, pos + 1, table);
        lemma_call_tail_is_grounded(tokens, pos + 3, table);
    }
}

/// What [`lemma_statement_is_grounded`] says, of a function declaration.
pub proof fn lemma_func_decl_is_grounded(
    tokens: Seq<TokenView>,
    pos: int,
    table: Seq<Declaration>,
    nesting: Nesting,
)
    requires
        0 <= pos,
    ensures
        grounded(tokens, pos, table, func_decl(tokens, pos, table, nesting)),
    decreases tokens.len() - pos, 0int,
{
    if at(tokens, pos, TokenType::Function) && at(tokens, pos + 1, TokenType::Identifier) {
        let entry = Declaration { name: tokens[pos + 1].text, kind: TokenType::Function };
        let named = table.push(entry);
        assert(introduces(tokens, pos, entry));
        let declared_here = accept(pos + 2, named);
        assert(grounded(tokens, pos, table, declared_here)) by {
            assert forall|i: int| table.len() <= i < named.len() implies introduced_between(
                tokens,
                pos,
                pos + 2,
                #[trigger] named[i],
            ) by {
                assert(named[i] == entry);
            }
        }
        let o = func_decl(tokens, pos, table, nesting);
        assert(grounded(tokens, pos + 2, named, o)) by {
            if at(tokens, pos + 2, TokenType::LeftParenthesis) {
                lemma_param_list_bounds(tokens, pos + 3, named);
                lemma_param_list_fails_by_syntax(tokens, pos + 3, named);
                let params = param_list(tokens, pos + 3, named);
                if params.failure is None && at(tokens, params.pos, TokenType::RightParenthesis) {
                    lemma_block_is_grounded(
                        tokens,
                        params.pos + 1,
                        named,
                        nesting.in_function(),
                    );
                    lemma_grounded_in_sequence(
                        tokens,
                        pos + 2,
                        named,
                        accept(params.pos + 1, named),
                        o,
                    );
                }
            }
        }
        lemma_grounded_in_sequence(tokens, pos, table, declared_here, o);
    }
}

/// What [`lemma_statement_is_grounded`] says, of an `if` statement.
pub proof fn lemma_if_stmt_is_grounded(
    tokens: Seq<TokenView>,
    pos: int,
    table: Seq<Declaration>,
    nesting: Nesting,
)
    requires
        0 <= pos,
    ensures
        grounded(tokens, pos, table, if_stmt(tokens, pos, table, nesting)),
    decreases tokens.len() - pos, 0int,
{
    if at(tokens, pos, TokenType::If) {
        lemma_condition_advances(tokens, pos + 1, table);
        lemma_expression_advances(tokens, pos + 2, table);
        lemma_expression_fails_by_syntax(tokens, pos + 2, table);
        let test = condition(tokens, pos + 1, table);
        if test.failure is None {
            lemma_block_is_grounded(tokens, test.pos, table, nesting);
            let body = block(tokens, test.pos, table, nesting);
            lemma_grounded_in_sequence(tokens, pos, table, test, body);
            if advanced(tokens, pos, body) && at(tokens, body.pos, TokenType::Else) {
                lemma_block_is_grounded(tokens, body.pos + 1, body.table, nesting);
                let other = block(tokens, body.pos + 1, body.table, nesting);
                lemma_grounded_in_sequence(
                    tokens,
                    body.pos,
                    body.table,
                    accept(body.pos + 1, body.table),
                    other,
                );
                lemma_grounded_in_sequence(tokens, pos, table, body, other);
            }
        }
    }
}

/// What [`lemma_statement_is_grounded`] says, of a `while` statement.
pub proof fn lemma_while_stmt_is_grounded(
    tokens: Seq<TokenView>,
    pos: int,
    table: Seq<Declaration>,
    nesting: Nesting,
)
    requires
        0 <= pos,
    ensures
        grounded(tokens, pos, table, while_stmt(tokens, pos, table, nesting)),
    decreases tokens.len() - pos, 0int,
{
    if at(tokens, pos, TokenType::While) {
        lemma_condition_advances(tokens, pos + 1, table);
        lemma_expression_advances(tokens, pos + 2, table);
        lemma_expression_fails_by_syntax(tokens, pos + 2, table);
        let test = condition(tokens, pos + 1, table);
        if test.failure is None {
            lemma_block_is_grounded(tokens, test.pos, table, nesting.in_loop());
            let body = block(tokens, test.pos, table, nesting.in_loop());
            lemma_grounded_in_sequence(tokens, pos, table, test, body);
        }
    }
}

/// What [`lemma_statement_is_grounded`] says, of a list of statements.
pub proof fn lemma_statements_are_grounded(
    tokens: Seq<TokenView>,
    pos: int,
    table: Seq<Declaration>,
    nesting: Nesting,
    until: TokenType,
)
    requires
        0 <= pos,
    ensures
        grounded(tokens, pos, table, statements(tokens, pos, table, nesting, until)),
    decreases tokens.len() - pos, 2int,
{
    if !at(tokens, pos, until) {
        lemma_statement_is_grounded(tokens, pos, table, nesting);
        let first = statement(tokens, pos, table, nesting);
        if advanced(tokens, pos, first) {
            lemma_statements_are_grounded(tokens, first.pos, first.table, nesting, until);
            lemma_grounded_in_sequence(
                tokens,
                pos,
                table,
                first,
                statements(tokens, first.pos, first.table, nesting, until),
            );
        }
    }
}

/// What [`lemma_statement_is_grounded`] says, of a block.
pub proof fn lemma_block_is_grounded(
    tokens: Seq<TokenView>,
    pos: int,
    table: Seq<Declaration>,
    nesting: Nesting,
)
    requires
        0 <= pos,
    ensures
        grounded(tokens, pos, table, block(tokens, pos, table, nesting)),
    decreases tokens.len() - pos, 3int,
{
    if at(tokens, pos, TokenType::LeftBraces) {
        lemma_statements_are_grounded(tokens, pos + 1, table, nesting, TokenType::RightBraces);
        let body = statements(tokens, pos + 1, table, nesting, TokenType::RightBraces);
        let o = block(tokens, pos, table, nesting);
        lemma_grounded_in_sequence(tokens, pos, table, accept(pos + 1, table), body);
        if body.failure is None {
            lemma_grounded_in_sequence(tokens, pos, table, body, o);
        }
    }
}

/// A name is used only behind its declaration: in a program read from its
/// first token with no declaration made, every entry of the table stands for
/// a declaration among the tokens read; and where the program is refused by
/// the declaration rule, it is refused at a name that none of the
/// declarations read before it has introduced.
pub proof fn lemma_declare_before_use(tokens: Seq<TokenView>)
    ensures
        ({
            let o = program(tokens, 0, Seq::empty(), Nesting::top());
            &&& forall|i: int|
                0 <= i < o.table.len() ==> introduced_between(tokens, 0, o.pos, #[trigger] o.table[i])
            &&& fails_by(o, ErrorKind::Declaration) ==> at(tokens, o.pos, TokenType::Identifier)
                && !declared(o.table, tokens[o.pos].text)
            &&& fails_by(o, ErrorKind::Context) ==> at(tokens, o.pos, TokenType::Break) || at(
                tokens,
                o.pos,
                TokenType::Continue,
            ) || at(tokens, o.pos, TokenType::Return)
        }),
{
    lemma_statements_are_grounded(tokens, 0, Seq::empty(), Nesting::top(), TokenType::EOF);
}

} // verus!
