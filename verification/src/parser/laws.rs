//! What holds of every parse: a program that the grammar allows is what
//! the parser makes of its tokens.

use vstd::prelude::*;
use crate::lexer::TokenView;
use crate::number::is_number_literal;
use crate::parser::expr::{ExprView, ExprValueView};
use crate::parser::StatementView;
use crate::parser::grammar::{
    ParserView, accept, consumed, current, lookahead, advanced, scoped, expr_parsed, args_parsed,
    exprs_parsed, params_parsed, names_parsed, assign_parsed, call_parsed, stmt_parsed,
    func_def_parsed, block_parsed, block_rest_parsed, program_parsed,
};

verus! {

/// An expression that the grammar allows: its numbers are numeric
/// literals, and it holds no binary operation.
pub open spec fn expr_allowed(e: ExprView) -> bool
    decreases e,
{
    match e {
        ExprView::Lit(ExprValueView::Num(text)) => is_number_literal(text),
        ExprView::Ident(_) => true,
        ExprView::Fn(_, args) => forall|i: int|
            0 <= i < args.len() ==> expr_allowed(#[trigger] args[i]),
        ExprView::BinOp(_, _, _) => false,
    }
}

/// Every expression of `es` is allowed.
pub open spec fn exprs_allowed(es: Seq<ExprView>) -> bool {
    forall|i: int| 0 <= i < es.len() ==> expr_allowed(#[trigger] es[i])
}

/// A statement that the grammar allows, in global scope or not: its
/// expressions are allowed, and a function definition stands only in
/// global scope, which no block and no function body is.
pub open spec fn stmt_allowed(s: StatementView, global: bool) -> bool
    decreases s,
{
    match s {
        StatementView::FuncCall(_, args) => exprs_allowed(args),
        StatementView::Return(e) => expr_allowed(e),
        StatementView::FuncDef(_, _, body) => global && forall|i: int|
            0 <= i < body.len() ==> stmt_allowed(#[trigger] body[i], false),
        StatementView::VarDef(_, e) => expr_allowed(e),
        StatementView::VarAssign(_, e) => expr_allowed(e),
        StatementView::BlockStmt(body) => forall|i: int|
            0 <= i < body.len() ==> stmt_allowed(#[trigger] body[i], false),
    }
}

/// Every statement of `ss` is allowed.
pub open spec fn stmts_allowed(ss: Seq<StatementView>, global: bool) -> bool {
    forall|i: int| 0 <= i < ss.len() ==> stmt_allowed(#[trigger] ss[i], global)
}

/// `token`, then `tail`.
pub open spec fn then(token: TokenView, tail: Seq<TokenView>) -> Seq<TokenView> {
    seq![token] + tail
}

/// The tokens of `e`, then `tail`.
pub open spec fn expr_then(e: ExprView, tail: Seq<TokenView>) -> Seq<TokenView>
    decreases e, 1nat,
{
    match e {
        ExprView::Lit(ExprValueView::Num(text)) => then(TokenView::Num(text), tail),
        ExprView::Ident(name) => then(TokenView::Str(name), tail),
        ExprView::Fn(name, args) => then(
            TokenView::Str(name),
            then(TokenView::LParen, exprs_then(args, then(TokenView::RParen, tail))),
        ),
        ExprView::BinOp(_, _, _) => tail,
    }
}

/// The tokens of the expressions `es` with commas between them, then
/// `tail`.
pub open spec fn exprs_then(es: Seq<ExprView>, tail: Seq<TokenView>) -> Seq<TokenView>
    decreases es, 0nat,
{
    if es.len() == 0 {
        tail
    } else if es.len() == 1 {
        expr_then(es[0], tail)
    } else {
        expr_then(es[0], then(TokenView::Comma, exprs_then(es.skip(1), tail)))
    }
}

/// The names with commas between them, then `tail`.
pub open spec fn names_then(names: Seq<Seq<char>>, tail: Seq<TokenView>) -> Seq<TokenView>
    decreases names.len(),
{
    if names.len() == 0 {
        tail
    } else if names.len() == 1 {
        then(TokenView::Str(names[0]), tail)
    } else {
        then(
            TokenView::Str(names[0]),
            then(TokenView::Comma, names_then(names.skip(1), tail)),
        )
    }
}

/// The tokens of `s`, then `tail`.
pub open spec fn stmt_then(s: StatementView, tail: Seq<TokenView>) -> Seq<TokenView>
    decreases s, 1nat,
{
    match s {
        StatementView::FuncCall(name, args) => then(
            TokenView::Str(name),
            then(TokenView::LParen, exprs_then(args, then(TokenView::RParen, tail))),
        ),
        StatementView::Return(e) => then(TokenView::Return, expr_then(e, tail)),
        StatementView::FuncDef(name, params, body) => then(
            TokenView::Fn,
            then(
                TokenView::Str(name),
                then(
                    TokenView::LParen,
                    names_then(
                        params,
                        then(
                            TokenView::RParen,
                            then(
                                TokenView::LBrace,
                                stmts_then(body, then(TokenView::RBrace, tail)),
                            ),
                        ),
                    ),
                ),
            ),
        ),
        StatementView::VarDef(name, e) => then(
            TokenView::Let,
            then(TokenView::Str(name), then(TokenView::Eq, expr_then(e, tail))),
        ),
        StatementView::VarAssign(name, e) => then(
            TokenView::Str(name),
            then(TokenView::Eq, expr_then(e, tail)),
        ),
        StatementView::BlockStmt(body) => then(
            TokenView::LBrace,
            stmts_then(body, then(TokenView::RBrace, tail)),
        ),
    }
}

/// The tokens of the statements `ss`, one after the other, then `tail`.
pub open spec fn stmts_then(ss: Seq<StatementView>, tail: Seq<TokenView>) -> Seq<TokenView>
    decreases ss, 0nat,
{
    if ss.len() == 0 {
        tail
    } else {
        stmt_then(ss[0], stmts_then(ss.skip(1), tail))
    }
}

/// The tokens of a program.
pub open spec fn program_tokens(program: Seq<StatementView>) -> Seq<TokenView> {
    stmts_then(program, Seq::empty())
}

/// The first token of `tokens` is not `(`.
pub open spec fn no_call_ahead(tokens: Seq<TokenView>) -> bool {
    tokens.len() == 0 || tokens[0] != TokenView::LParen
}

/// A token that can start a statement.
pub open spec fn starts_statement(t: TokenView) -> bool {
    t is Return || t is Fn || t is Let || t is LBrace || t is Str
}

/// The state at the tokens `rest`.
pub open spec fn at(rest: Seq<TokenView>, global: bool) -> ParserView {
    ParserView { rest, global }
}

/// With `token` in front, `token` is the current token, and `tail` is what
/// is left when it is consumed.
proof fn lemma_then(token: TokenView, tail: Seq<TokenView>, global: bool)
    ensures
        then(token, tail).len() == tail.len() + 1,
        then(token, tail)[0] == token,
        current(at(then(token, tail), global)) == token,
        lookahead(at(then(token, tail), global)) == current(at(tail, global)),
        advanced(at(then(token, tail), global)) == at(tail, global),
        scoped(at(then(token, tail), global), false) == at(then(token, tail), false),
{
    assert(then(token, tail).skip(1) =~= tail);
}

/// A statement's tokens start with a token that starts a statement.
proof fn lemma_stmt_starts(s: StatementView, tail: Seq<TokenView>)
    ensures
        stmt_then(s, tail).len() > 0,
        starts_statement(stmt_then(s, tail)[0]),
{
    match s {
        StatementView::FuncCall(name, args) => {
            lemma_then(
                TokenView::Str(name),
                then(TokenView::LParen, exprs_then(args, then(TokenView::RParen, tail))),
                true,
            );
        },
        StatementView::Return(e) => {
            lemma_then(TokenView::Return, expr_then(e, tail), true);
        },
        StatementView::FuncDef(name, params, body) => {
            lemma_then(
                TokenView::Fn,
                then(
                    TokenView::Str(name),
                    then(
                        TokenView::LParen,
                        names_then(
                            params,
                            then(
                                TokenView::RParen,
                                then(
                                    TokenView::LBrace,
                                    stmts_then(body, then(TokenView::RBrace, tail)),
                                ),
                            ),
                        ),
                    ),
                ),
                true,
            );
        },
        StatementView::VarDef(name, e) => {
            lemma_then(
                TokenView::Let,
                then(TokenView::Str(name), then(TokenView::Eq, expr_then(e, tail))),
                true,
            );
        },
        StatementView::VarAssign(name, e) => {
            lemma_then(TokenView::Str(name), then(TokenView::Eq, expr_then(e, tail)), true);
        },
        StatementView::BlockStmt(body) => {
            lemma_then(TokenView::LBrace, stmts_then(body, then(TokenView::RBrace, tail)), true);
        },
    }
}

/// After statements no call is ahead, if none is ahead after them.
proof fn lemma_stmts_no_call(ss: Seq<StatementView>, tail: Seq<TokenView>)
    requires
        no_call_ahead(tail),
    ensures
        no_call_ahead(stmts_then(ss, tail)),
{
    if ss.len() > 0 {
        lemma_stmt_starts(ss[0], stmts_then(ss.skip(1), tail));
    }
}

/// An allowed expression is what the parser makes of its tokens, and it
/// leaves what follows them.
pub proof fn lemma_expr_round(e: ExprView, tail: Seq<TokenView>, global: bool)
    requires
        expr_allowed(e),
        no_call_ahead(tail),
    ensures
        expr_parsed(at(expr_then(e, tail), global)) == accept(at(tail, global), e),
        expr_then(e, tail).len() > tail.len(),
        expr_then(e, tail)[0] is Num || expr_then(e, tail)[0] is Str,
    decreases e, 1nat,
{
    match e {
        ExprView::Lit(ExprValueView::Num(text)) => {
            lemma_then(TokenView::Num(text), tail, global);
        },
        ExprView::Ident(name) => {
            lemma_then(TokenView::Str(name), tail, global);
        },
        ExprView::Fn(name, args) => {
            let inner = exprs_then(args, then(TokenView::RParen, tail));
            lemma_then(TokenView::Str(name), then(TokenView::LParen, inner), global);
            lemma_then(TokenView::LParen, inner, global);
            lemma_args_round(args, tail, global);
        },
        ExprView::BinOp(_, _, _) => {},
    }
}

/// Allowed arguments and the parenthesis that closes them are what the
/// parser makes of their tokens.
pub proof fn lemma_args_round(es: Seq<ExprView>, tail: Seq<TokenView>, global: bool)
    requires
        exprs_allowed(es),
    ensures
        args_parsed(at(exprs_then(es, then(TokenView::RParen, tail)), global)) == accept(
            at(tail, global),
            es,
        ),
        exprs_then(es, then(TokenView::RParen, tail)).len() > tail.len(),
    decreases es, 1nat,
{
    lemma_then(TokenView::RParen, tail, global);
    if es.len() == 0 {
        assert(es =~= Seq::empty());
    } else {
        lemma_exprs_round(es, tail, global);
    }
}

proof fn lemma_exprs_round(es: Seq<ExprView>, tail: Seq<TokenView>, global: bool)
    requires
        es.len() > 0,
        exprs_allowed(es),
    ensures
        exprs_parsed(at(exprs_then(es, then(TokenView::RParen, tail)), global)) == accept(
            at(tail, global),
            es,
        ),
        exprs_then(es, then(TokenView::RParen, tail)).len() > tail.len() + 1,
        exprs_then(es, then(TokenView::RParen, tail))[0] is Num || exprs_then(
            es,
            then(TokenView::RParen, tail),
        )[0] is Str,
    decreases es, 0nat,
{
    let close = then(TokenView::RParen, tail);
    lemma_then(TokenView::RParen, tail, global);
    if es.len() == 1 {
        lemma_expr_round(es[0], close, global);
        assert(seq![es[0]] =~= es);
    } else {
        let later = exprs_then(es.skip(1), close);
        assert forall|i: int| 0 <= i < es.skip(1).len() implies expr_allowed(
            #[trigger] es.skip(1)[i],
        ) by {
            assert(es.skip(1)[i] == es[i + 1]);
        }
        lemma_then(TokenView::Comma, later, global);
        lemma_expr_round(es[0], then(TokenView::Comma, later), global);
        lemma_exprs_round(es.skip(1), tail, global);
        assert(seq![es[0]] + es.skip(1) =~= es);
    }
}

/// Parameter names and the parenthesis that closes them are what the
/// parser makes of their tokens.
pub proof fn lemma_params_round(names: Seq<Seq<char>>, tail: Seq<TokenView>, global: bool)
    ensures
        params_parsed(at(names_then(names, then(TokenView::RParen, tail)), global)) == accept(
            at(tail, global),
            names,
        ),
        names_then(names, then(TokenView::RParen, tail)).len() > tail.len(),
{
    lemma_then(TokenView::RParen, tail, global);
    if names.len() == 0 {
        assert(names =~= Seq::empty());
    } else {
        lemma_names_round(names, tail, global);
    }
}

proof fn lemma_names_round(names: Seq<Seq<char>>, tail: Seq<TokenView>, global: bool)
    requires
        names.len() > 0,
    ensures
        names_parsed(at(names_then(names, then(TokenView::RParen, tail)), global)) == accept(
            at(tail, global),
            names,
        ),
        names_then(names, then(TokenView::RParen, tail)).len() > tail.len() + 1,
        names_then(names, then(TokenView::RParen, tail))[0] is Str,
    decreases names.len(),
{
    let close = then(TokenView::RParen, tail);
    lemma_then(TokenView::RParen, tail, global);
    if names.len() == 1 {
        lemma_then(TokenView::Str(names[0]), close, global);
        assert(seq![names[0]] =~= names);
    } else {
        let later = names_then(names.skip(1), close);
        lemma_then(TokenView::Comma, later, global);
        lemma_then(TokenView::Str(names[0]), then(TokenView::Comma, later), global);
        lemma_names_round(names.skip(1), tail, global);
        assert(seq![names[0]] + names.skip(1) =~= names);
    }
}

/// An allowed statement is what the parser makes of its tokens, and it
/// leaves what follows them.
pub proof fn lemma_stmt_round(s: StatementView, tail: Seq<TokenView>, global: bool)
    requires
        stmt_allowed(s, global),
        no_call_ahead(tail),
    ensures
        stmt_parsed(at(stmt_then(s, tail), global)) == accept(at(tail, global), s),
        stmt_then(s, tail).len() > tail.len(),
    decreases s, 2nat,
{
    match s {
        StatementView::FuncCall(name, args) => {
            let inner = exprs_then(args, then(TokenView::RParen, tail));
            lemma_then(TokenView::Str(name), then(TokenView::LParen, inner), global);
            lemma_then(TokenView::LParen, inner, global);
            lemma_args_round(args, tail, global);
        },
        StatementView::Return(e) => {
            lemma_then(TokenView::Return, expr_then(e, tail), global);
            lemma_expr_round(e, tail, global);
        },
        StatementView::FuncDef(name, params, body) => {
            let block = then(TokenView::LBrace, stmts_then(body, then(TokenView::RBrace, tail)));
            let names = names_then(params, then(TokenView::RParen, block));
            lemma_then(
                TokenView::Fn,
                then(TokenView::Str(name), then(TokenView::LParen, names)),
                global,
            );
            lemma_then(
                TokenView::Fn,
                then(TokenView::Str(name), then(TokenView::LParen, names)),
                false,
            );
            lemma_then(TokenView::Str(name), then(TokenView::LParen, names), false);
            lemma_then(TokenView::LParen, names, false);
            lemma_params_round(params, block, false);
            lemma_block_round(body, tail, false);
        },
        StatementView::VarDef(name, e) => {
            let value = expr_then(e, tail);
            lemma_then(
                TokenView::Let,
                then(TokenView::Str(name), then(TokenView::Eq, value)),
                global,
            );
            lemma_then(TokenView::Str(name), then(TokenView::Eq, value), global);
            lemma_then(TokenView::Eq, value, global);
            lemma_expr_round(e, tail, global);
        },
        StatementView::VarAssign(name, e) => {
            let value = expr_then(e, tail);
            lemma_then(TokenView::Str(name), then(TokenView::Eq, value), global);
            lemma_then(TokenView::Eq, value, global);
            lemma_expr_round(e, tail, global);
        },
        StatementView::BlockStmt(body) => {
            lemma_block_round(body, tail, global);
        },
    }
}

/// An allowed block is what the parser makes of its tokens.
pub proof fn lemma_block_round(body: Seq<StatementView>, tail: Seq<TokenView>, global: bool)
    requires
        stmts_allowed(body, false),
    ensures
        block_parsed(
            at(then(TokenView::LBrace, stmts_then(body, then(TokenView::RBrace, tail))), global),
        ) == accept(at(tail, global), body),
        then(TokenView::LBrace, stmts_then(body, then(TokenView::RBrace, tail))).len()
            > tail.len(),
    decreases body, 1nat,
{
    lemma_then(TokenView::LBrace, stmts_then(body, then(TokenView::RBrace, tail)), global);
    lemma_block_rest_round(body, tail);
}

proof fn lemma_block_rest_round(body: Seq<StatementView>, tail: Seq<TokenView>)
    requires
        stmts_allowed(body, false),
    ensures
        block_rest_parsed(at(stmts_then(body, then(TokenView::RBrace, tail)), false)) == accept(
            at(tail, false),
            body,
        ),
        stmts_then(body, then(TokenView::RBrace, tail)).len() > tail.len(),
    decreases body, 0nat,
{
    let close = then(TokenView::RBrace, tail);
    lemma_then(TokenView::RBrace, tail, false);
    if body.len() == 0 {
        assert(body =~= Seq::empty());
    } else {
        let later = stmts_then(body.skip(1), close);
        assert forall|i: int| 0 <= i < body.skip(1).len() implies stmt_allowed(
            #[trigger] body.skip(1)[i],
            false,
        ) by {
            assert(body.skip(1)[i] == body[i + 1]);
        }
        lemma_stmts_no_call(body.skip(1), close);
        lemma_stmt_starts(body[0], later);
        lemma_stmt_round(body[0], later, false);
        lemma_block_rest_round(body.skip(1), tail);
        assert(seq![body[0]] + body.skip(1) =~= body);
    }
}

/// A program that the grammar allows is what the parser makes of its
/// tokens: parsing succeeds, consumes every token, and gives the program's
/// statements, as many as the program has.
pub proof fn law_parse_of_tokens(program: Seq<StatementView>)
    requires
        stmts_allowed(program, true),
    ensures
        program_parsed(at(program_tokens(program), true)) == accept(
            at(Seq::empty(), true),
            program,
        ),
{
    lemma_program_round(program);
}

proof fn lemma_program_round(program: Seq<StatementView>)
    requires
        stmts_allowed(program, true),
    ensures
        program_parsed(at(stmts_then(program, Seq::empty()), true)) == accept(
            at(Seq::empty(), true),
            program,
        ),
    decreases program.len(),
{
    if program.len() == 0 {
        assert(program =~= Seq::empty());
    } else {
        let later = stmts_then(program.skip(1), Seq::empty());
        assert forall|i: int| 0 <= i < program.skip(1).len() implies stmt_allowed(
            #[trigger] program.skip(1)[i],
            true,
        ) by {
            assert(program.skip(1)[i] == program[i + 1]);
        }
        lemma_stmts_no_call(program.skip(1), Seq::empty());
        lemma_stmt_starts(program[0], later);
        lemma_stmt_round(program[0], later, true);
        lemma_program_round(program.skip(1));
        assert(seq![program[0]] + program.skip(1) =~= program);
    }
}

/// Parsing an expression keeps the scope and gives no token back; when it
/// succeeds, it consumed one.
pub proof fn lemma_expr_consumes(st: ParserView)
    ensures
        consumed(st, expr_parsed(st).state, expr_parsed(st).result is Ok),
        expr_parsed(st).state.global == st.global,
    decreases st.rest.len(), 0nat,
{
    match current(st) {
        TokenView::Str(_) => {
            if lookahead(st) == TokenView::LParen {
                lemma_args_consume(advanced(advanced(st)));
            }
        },
        _ => {},
    }
}

/// Parsing arguments keeps the scope and gives no token back; when it
/// succeeds, it consumed one.
pub proof fn lemma_args_consume(st: ParserView)
    ensures
        consumed(st, args_parsed(st).state, args_parsed(st).result is Ok),
        args_parsed(st).state.global == st.global,
    decreases st.rest.len(), 2nat,
{
    if current(st) != TokenView::RParen {
        lemma_exprs_consume(st);
    }
}

proof fn lemma_exprs_consume(st: ParserView)
    ensures
        consumed(st, exprs_parsed(st).state, exprs_parsed(st).result is Ok),
        exprs_parsed(st).state.global == st.global,
    decreases st.rest.len(), 1nat,
{
    lemma_expr_consumes(st);
    let first = expr_parsed(st);
    if first.result is Ok && current(first.state) == TokenView::Comma {
        lemma_exprs_consume(advanced(first.state));
    }
}

/// Parsing parameters keeps the scope and gives no token back; when it
/// succeeds, it consumed one.
pub proof fn lemma_params_consume(st: ParserView)
    ensures
        consumed(st, params_parsed(st).state, params_parsed(st).result is Ok),
        params_parsed(st).state.global == st.global,
{
    if current(st) != TokenView::RParen {
        lemma_names_consume(st);
    }
}

proof fn lemma_names_consume(st: ParserView)
    ensures
        consumed(st, names_parsed(st).state, names_parsed(st).result is Ok),
        names_parsed(st).state.global == st.global,
    decreases st.rest.len(),
{
    if current(st) is Str && current(advanced(st)) == TokenView::Comma {
        lemma_names_consume(advanced(advanced(st)));
    }
}

/// Parsing a statement gives no token back; when it succeeds, it consumed
/// one and the scope is what it was.
pub proof fn lemma_stmt_consumes(st: ParserView)
    ensures
        consumed(st, stmt_parsed(st).state, stmt_parsed(st).result is Ok),
        stmt_parsed(st).result is Ok ==> stmt_parsed(st).state.global == st.global,
    decreases st.rest.len(), 2nat,
{
    match current(st) {
        TokenView::Return => {
            lemma_expr_consumes(advanced(st));
        },
        TokenView::Fn => {
            if st.global {
                lemma_func_def_consumes(st);
            }
        },
        TokenView::Let => {
            lemma_assign_consumes(advanced(st));
        },
        TokenView::LBrace => {
            lemma_block_consumes(st);
        },
        _ => {
            lemma_assign_consumes(st);
            lemma_call_consumes(st);
        },
    }
}

proof fn lemma_assign_consumes(st: ParserView)
    ensures
        consumed(st, assign_parsed(st).state, assign_parsed(st).result is Ok),
        assign_parsed(st).state.global == st.global,
{
    lemma_expr_consumes(advanced(advanced(st)));
}

proof fn lemma_call_consumes(st: ParserView)
    ensures
        consumed(st, call_parsed(st).state, call_parsed(st).result is Ok),
        call_parsed(st).state.global == st.global,
{
    lemma_args_consume(advanced(advanced(st)));
}

proof fn lemma_func_def_consumes(st: ParserView)
    ensures
        consumed(st, func_def_parsed(st).state, func_def_parsed(st).result is Ok),
        func_def_parsed(st).result is Ok ==> func_def_parsed(st).state.global,
    decreases st.rest.len(), 1nat,
{
    let at_name = advanced(scoped(st, false));
    let at_paren = advanced(at_name);
    lemma_params_consume(advanced(at_paren));
    let params = params_parsed(advanced(at_paren));
    if current(at_name) is Str && current(at_paren) == TokenView::LParen && params.result is Ok {
        lemma_block_consumes(params.state);
    }
}

proof fn lemma_block_consumes(st: ParserView)
    ensures
        consumed(st, block_parsed(st).state, block_parsed(st).result is Ok),
        block_parsed(st).result is Ok ==> block_parsed(st).state.global == st.global,
    decreases st.rest.len(), 0nat,
{
    if current(st) == TokenView::LBrace {
        lemma_block_rest_consumes(advanced(scoped(st, false)));
    }
}

proof fn lemma_block_rest_consumes(st: ParserView)
    ensures
        consumed(st, block_rest_parsed(st).state, block_rest_parsed(st).result is Ok),
        block_rest_parsed(st).result is Ok ==> block_rest_parsed(st).state.global == st.global,
    decreases st.rest.len(), 3nat,
{
    if current(st) != TokenView::RBrace {
        lemma_stmt_consumes(st);
        let first = stmt_parsed(st);
        if first.result is Ok {
            lemma_block_rest_consumes(first.state);
        }
    }
}

/// Tokens that are left are the current one, then what is left when it is
/// consumed.
proof fn lemma_current_first(st: ParserView)
    requires
        st.rest.len() > 0,
    ensures
        st.rest == then(current(st), advanced(st).rest),
        advanced(st).global == st.global,
{
    assert(st.rest =~= then(current(st), advanced(st).rest));
}

/// What was parsed as an expression is allowed, and its tokens are what
/// was consumed.
pub proof fn lemma_expr_sound(st: ParserView)
    requires
        expr_parsed(st).result is Ok,
    ensures
        expr_allowed(expr_parsed(st).result->Ok_0),
        st.rest == expr_then(expr_parsed(st).result->Ok_0, expr_parsed(st).state.rest),
    decreases st.rest.len(), 0nat,
{
    match current(st) {
        TokenView::Num(_) => {
            lemma_current_first(st);
        },
        TokenView::Str(_) => {
            lemma_current_first(st);
            if lookahead(st) == TokenView::LParen {
                lemma_current_first(advanced(st));
                lemma_args_sound(advanced(advanced(st)));
            }
        },
        _ => {},
    }
}

/// What was parsed as arguments is allowed, and its tokens and the
/// parenthesis after them are what was consumed.
pub proof fn lemma_args_sound(st: ParserView)
    requires
        args_parsed(st).result is Ok,
    ensures
        exprs_allowed(args_parsed(st).result->Ok_0),
        st.rest == exprs_then(
            args_parsed(st).result->Ok_0,
            then(TokenView::RParen, args_parsed(st).state.rest),
        ),
    decreases st.rest.len(), 2nat,
{
    if current(st) == TokenView::RParen {
        lemma_current_first(st);
    } else {
        lemma_exprs_sound(st);
    }
}

proof fn lemma_exprs_sound(st: ParserView)
    requires
        exprs_parsed(st).result is Ok,
    ensures
        exprs_parsed(st).result->Ok_0.len() > 0,
        exprs_allowed(exprs_parsed(st).result->Ok_0),
        st.rest == exprs_then(
            exprs_parsed(st).result->Ok_0,
            then(TokenView::RParen, exprs_parsed(st).state.rest),
        ),
    decreases st.rest.len(), 1nat,
{
    lemma_expr_consumes(st);
    lemma_expr_sound(st);
    let first = expr_parsed(st);
    let e = first.result->Ok_0;
    let es = exprs_parsed(st).result->Ok_0;
    lemma_current_first(first.state);
    if current(first.state) == TokenView::RParen {
        assert(es[0] == e);
    } else {
        let later = exprs_parsed(advanced(first.state));
        lemma_exprs_sound(advanced(first.state));
        assert(es == seq![e] + later.result->Ok_0);
        assert(es[0] == e);
        assert(es.skip(1) =~= later.result->Ok_0);
        assert forall|i: int| 0 <= i < es.len() implies expr_allowed(#[trigger] es[i]) by {
            if i > 0 {
                assert(es[i] == later.result->Ok_0[i - 1]);
            }
        }
    }
}

/// The tokens of what was parsed as parameters, and the parenthesis after
/// them, are what was consumed.
pub proof fn lemma_params_sound(st: ParserView)
    requires
        params_parsed(st).result is Ok,
    ensures
        st.rest == names_then(
            params_parsed(st).result->Ok_0,
            then(TokenView::RParen, params_parsed(st).state.rest),
        ),
{
    if current(st) == TokenView::RParen {
        lemma_current_first(st);
    } else {
        lemma_names_sound(st);
    }
}

proof fn lemma_names_sound(st: ParserView)
    requires
        names_parsed(st).result is Ok,
    ensures
        names_parsed(st).result->Ok_0.len() > 0,
        st.rest == names_then(
            names_parsed(st).result->Ok_0,
            then(TokenView::RParen, names_parsed(st).state.rest),
        ),
    decreases st.rest.len(),
{
    let names = names_parsed(st).result->Ok_0;
    lemma_current_first(st);
    let after = advanced(st);
    lemma_current_first(after);
    if current(after) == TokenView::RParen {
        assert(names[0] == current(st)->Str_0);
    } else {
        let later = names_parsed(advanced(after));
        lemma_names_sound(advanced(after));
        assert(names == seq![current(st)->Str_0] + later.result->Ok_0);
        assert(names[0] == current(st)->Str_0);
        assert(names.skip(1) =~= later.result->Ok_0);
    }
}

proof fn lemma_assign_sound(st: ParserView)
    requires
        assign_parsed(st).result is Ok,
    ensures
        expr_allowed(assign_parsed(st).result->Ok_0.1),
        st.rest == then(
            TokenView::Str(assign_parsed(st).result->Ok_0.0),
            then(
                TokenView::Eq,
                expr_then(assign_parsed(st).result->Ok_0.1, assign_parsed(st).state.rest),
            ),
        ),
{
    lemma_current_first(st);
    lemma_current_first(advanced(st));
    lemma_expr_sound(advanced(advanced(st)));
}

proof fn lemma_call_sound(st: ParserView)
    requires
        call_parsed(st).result is Ok,
    ensures
        exprs_allowed(call_parsed(st).result->Ok_0.1),
        st.rest == then(
            TokenView::Str(call_parsed(st).result->Ok_0.0),
            then(
                TokenView::LParen,
                exprs_then(
                    call_parsed(st).result->Ok_0.1,
                    then(TokenView::RParen, call_parsed(st).state.rest),
                ),
            ),
        ),
{
    lemma_current_first(st);
    lemma_current_first(advanced(st));
    lemma_args_sound(advanced(advanced(st)));
}

/// What was parsed as a statement is allowed in the scope it was parsed
/// in, and its tokens are what was consumed.
pub proof fn lemma_stmt_sound(st: ParserView)
    requires
        stmt_parsed(st).result is Ok,
    ensures
        stmt_allowed(stmt_parsed(st).result->Ok_0, st.global),
        st.rest == stmt_then(stmt_parsed(st).result->Ok_0, stmt_parsed(st).state.rest),
    decreases st.rest.len(), 2nat,
{
    match current(st) {
        TokenView::Return => {
            lemma_current_first(st);
            lemma_expr_sound(advanced(st));
        },
        TokenView::Fn => {
            lemma_func_def_sound(st);
        },
        TokenView::Let => {
            lemma_current_first(st);
            lemma_assign_sound(advanced(st));
        },
        TokenView::LBrace => {
            lemma_block_sound(st);
        },
        _ => {
            match lookahead(st) {
                TokenView::Eq => {
                    lemma_assign_sound(st);
                },
                TokenView::LParen => {
                    lemma_call_sound(st);
                },
                _ => {},
            }
        },
    }
}

proof fn lemma_func_def_sound(st: ParserView)
    requires
        st.global,
        current(st) == TokenView::Fn,
        func_def_parsed(st).result is Ok,
    ensures
        stmt_allowed(func_def_parsed(st).result->Ok_0, true),
        st.rest == stmt_then(func_def_parsed(st).result->Ok_0, func_def_parsed(st).state.rest),
    decreases st.rest.len(), 1nat,
{
    let at_name = advanced(scoped(st, false));
    let at_paren = advanced(at_name);
    let params = params_parsed(advanced(at_paren));
    assert(st.rest.len() > 0);
    lemma_current_first(scoped(st, false));
    lemma_current_first(at_name);
    lemma_current_first(at_paren);
    lemma_params_consume(advanced(at_paren));
    lemma_params_sound(advanced(at_paren));
    lemma_block_sound(params.state);
}

proof fn lemma_block_sound(st: ParserView)
    requires
        block_parsed(st).result is Ok,
    ensures
        stmts_allowed(block_parsed(st).result->Ok_0, false),
        st.rest == then(
            TokenView::LBrace,
            stmts_then(
                block_parsed(st).result->Ok_0,
                then(TokenView::RBrace, block_parsed(st).state.rest),
            ),
        ),
    decreases st.rest.len(), 0nat,
{
    lemma_current_first(scoped(st, false));
    lemma_block_rest_sound(advanced(scoped(st, false)));
}

proof fn lemma_block_rest_sound(st: ParserView)
    requires
        !st.global,
        block_rest_parsed(st).result is Ok,
    ensures
        stmts_allowed(block_rest_parsed(st).result->Ok_0, false),
        st.rest == stmts_then(
            block_rest_parsed(st).result->Ok_0,
            then(TokenView::RBrace, block_rest_parsed(st).state.rest),
        ),
    decreases st.rest.len(), 3nat,
{
    if current(st) == TokenView::RBrace {
        lemma_current_first(st);
    } else {
        lemma_stmt_consumes(st);
        lemma_stmt_sound(st);
        let first = stmt_parsed(st);
        let s = first.result->Ok_0;
        let later = block_rest_parsed(first.state);
        let body = block_rest_parsed(st).result->Ok_0;
        lemma_block_rest_sound(first.state);
        assert(body == seq![s] + later.result->Ok_0);
        assert(body[0] == s);
        assert(body.skip(1) =~= later.result->Ok_0);
        assert forall|i: int| 0 <= i < body.len() implies stmt_allowed(#[trigger] body[i], false) by {
            if i > 0 {
                assert(body[i] == later.result->Ok_0[i - 1]);
            }
        }
    }
}

/// What was parsed as a program is allowed, its tokens are what was
/// consumed, and what is left is the end of the input: a program that the
/// parser accepts is a program of the grammar, and the input is its
/// tokens.
pub proof fn law_tokens_of_parse(st: ParserView)
    requires
        program_parsed(st).result is Ok,
    ensures
        stmts_allowed(program_parsed(st).result->Ok_0, st.global),
        st.rest == stmts_then(program_parsed(st).result->Ok_0, program_parsed(st).state.rest),
        current(program_parsed(st).state) == TokenView::EOF,
    decreases st.rest.len(),
{
    if current(st) != TokenView::EOF {
        lemma_stmt_consumes(st);
        lemma_stmt_sound(st);
        let first = stmt_parsed(st);
        let s = first.result->Ok_0;
        let later = program_parsed(first.state);
        let program = program_parsed(st).result->Ok_0;
        law_tokens_of_parse(first.state);
        assert(program == seq![s] + later.result->Ok_0);
        assert(program[0] == s);
        assert(program.skip(1) =~= later.result->Ok_0);
        assert forall|i: int| 0 <= i < program.len() implies stmt_allowed(
            #[trigger] program[i],
            st.global,
        ) by {
            if i > 0 {
                assert(program[i] == later.result->Ok_0[i - 1]);
            }
        }
    }
}

} // verus!
