//! The grammar, as functions from the tokens that are left to what is
//! parsed and the tokens that are left after it.
//!
//! ```text
//! Program   := Statement* EOF
//! Statement := "return" Expr
//!            | "fn" Ident "(" (Ident ("," Ident)*)? ")" Block
//!            | "let" Ident "=" Expr
//!            | Block
//!            | Ident "=" Expr
//!            | Ident "(" (Expr ("," Expr)*)? ")"
//! Block     := "{" Statement* "}"
//! Expr      := Number
//!            | Ident
//!            | Ident "(" (Expr ("," Expr)*)? ")"
//! ```
//!
//! A function definition is a statement only in global scope: not inside a
//! block, and so not inside a function.

use vstd::prelude::*;
use crate::lexer::TokenView;
use crate::number::is_number_literal;
use crate::parser::expr::{ExprView, ExprValueView};
use crate::parser::StatementView;

verus! {

/// Why a token sequence is no program.
pub enum SyntaxErrorView {
    Expected { expected: TokenView, found: TokenView },
    ExpectedFunctionName { found: TokenView },
    ExpectedIdentifier { found: TokenView },
    ExpectedNumber { found: TokenView },
    NestedFunction,
    UnexpectedToken { found: TokenView },
    InvalidExpression { found: TokenView },
    UnsupportedOperator { found: TokenView },
    InvalidNumber { text: Seq<char> },
}

/// The parser's state: the tokens that are left, the current one first,
/// and whether the parser is in global scope. No token that is left is
/// `EOF`: the input ends where the sequence ends.
pub struct ParserView {
    pub rest: Seq<TokenView>,
    pub global: bool,
}

/// The state a parse ended in, and what was parsed or the fault.
pub struct Parsed<T> {
    pub state: ParserView,
    pub result: Result<T, SyntaxErrorView>,
}

/// A parse that ended in `state` with `value`.
pub open spec fn accept<T>(state: ParserView, value: T) -> Parsed<T> {
    Parsed { state, result: Ok(value) }
}

/// A parse that stopped in `state` with `error`.
pub open spec fn reject<T>(state: ParserView, error: SyntaxErrorView) -> Parsed<T> {
    Parsed { state, result: Err(error) }
}

/// The current token: the first that is left, `EOF` when none is.
pub open spec fn current(st: ParserView) -> TokenView {
    if st.rest.len() > 0 {
        st.rest[0]
    } else {
        TokenView::EOF
    }
}

/// The token after the current one, `EOF` when there is none.
pub open spec fn lookahead(st: ParserView) -> TokenView {
    if st.rest.len() > 1 {
        st.rest[1]
    } else {
        TokenView::EOF
    }
}

/// The state after the current token is consumed. At the end of the input
/// nothing changes.
pub open spec fn advanced(st: ParserView) -> ParserView {
    if st.rest.len() > 0 {
        ParserView { rest: st.rest.skip(1), ..st }
    } else {
        st
    }
}

/// The state with its scope flag set to `global`.
pub open spec fn scoped(st: ParserView, global: bool) -> ParserView {
    ParserView { global, ..st }
}

/// `after` has no more tokens left than `before`, and fewer if `ok`.
pub open spec fn consumed(before: ParserView, after: ParserView, ok: bool) -> bool {
    &&& after.rest.len() <= before.rest.len()
    &&& ok ==> after.rest.len() < before.rest.len()
}

/// The current token is `expected`.
pub open spec fn checked(st: ParserView, expected: TokenView) -> Result<(), SyntaxErrorView> {
    if current(st) == expected {
        Ok(())
    } else {
        Err(SyntaxErrorView::Expected { expected, found: current(st) })
    }
}

/// An identifier. The current token is consumed whether it is one or not.
pub open spec fn ident_parsed(st: ParserView) -> Parsed<Seq<char>> {
    match current(st) {
        TokenView::Str(name) => accept(advanced(st), name),
        found => reject(advanced(st), SyntaxErrorView::ExpectedIdentifier { found }),
    }
}

/// A number token. The current token is consumed whether it is one or not.
pub open spec fn num_parsed(st: ParserView) -> Parsed<Seq<char>> {
    match current(st) {
        TokenView::Num(text) => accept(advanced(st), text),
        found => reject(advanced(st), SyntaxErrorView::ExpectedNumber { found }),
    }
}

/// `o` with `first` put in front of what it parsed.
pub open spec fn with_first<T>(first: T, o: Parsed<Seq<T>>) -> Parsed<Seq<T>> {
    match o.result {
        Ok(items) => accept(o.state, seq![first] + items),
        Err(e) => reject(o.state, e),
    }
}

/// `o` with `done` put in front of what it parsed.
pub open spec fn with_done<T>(done: Seq<T>, o: Parsed<Seq<T>>) -> Parsed<Seq<T>> {
    match o.result {
        Ok(items) => accept(o.state, done + items),
        Err(e) => reject(o.state, e),
    }
}

/// `Expr := Number | Ident | Ident "(" (Expr ("," Expr)*)? ")"`
///
/// An identifier is a call when the token after it is `(`. An operator or
/// a semicolon where an expression starts is not supported.
pub open spec fn expr_parsed(st: ParserView) -> Parsed<ExprView>
    decreases st.rest.len(), 0nat,
{
    match current(st) {
        TokenView::Num(text) => if is_number_literal(text) {
            accept(advanced(st), ExprView::Lit(ExprValueView::Num(text)))
        } else {
            reject(advanced(st), SyntaxErrorView::InvalidNumber { text })
        },
        TokenView::Str(name) => if lookahead(st) == TokenView::LParen {
            let args = args_parsed(advanced(advanced(st)));
            match args.result {
                Ok(args_) => accept(args.state, ExprView::Fn(name, args_)),
                Err(e) => reject(args.state, e),
            }
        } else {
            accept(advanced(st), ExprView::Ident(name))
        },
        TokenView::Plus | TokenView::Minus | TokenView::Slash | TokenView::Star | TokenView::SemiC => reject(
            st,
            SyntaxErrorView::UnsupportedOperator { found: current(st) },
        ),
        found => reject(st, SyntaxErrorView::InvalidExpression { found }),
    }
}

/// `(Expr ("," Expr)*)? ")"`: the arguments of a call and the parenthesis
/// that closes it.
pub open spec fn args_parsed(st: ParserView) -> Parsed<Seq<ExprView>>
    decreases st.rest.len(), 2nat,
{
    if current(st) == TokenView::RParen {
        accept(advanced(st), Seq::empty())
    } else {
        exprs_parsed(st)
    }
}

/// `Expr ("," Expr)* ")"`
///
/// An expression that was parsed consumed a token (`lemma_expr_consumes`
/// in `laws`):
/// the test of the lengths below always holds, and is there to show that
/// the definition ends.
pub open spec fn exprs_parsed(st: ParserView) -> Parsed<Seq<ExprView>>
    decreases st.rest.len(), 1nat,
{
    let first = expr_parsed(st);
    match first.result {
        Err(e) => reject(first.state, e),
        Ok(e) => if current(first.state) == TokenView::RParen {
            accept(advanced(first.state), seq![e])
        } else if current(first.state) == TokenView::Comma && first.state.rest.len()
            <= st.rest.len() {
            with_first(e, exprs_parsed(advanced(first.state)))
        } else {
            reject(
                first.state,
                SyntaxErrorView::Expected {
                    expected: TokenView::Comma,
                    found: current(first.state),
                },
            )
        },
    }
}

/// `(Ident ("," Ident)*)? ")"`: the parameters of a function and the
/// parenthesis that closes them.
pub open spec fn params_parsed(st: ParserView) -> Parsed<Seq<Seq<char>>> {
    if current(st) == TokenView::RParen {
        accept(advanced(st), Seq::empty())
    } else {
        names_parsed(st)
    }
}

/// `Ident ("," Ident)* ")"`
pub open spec fn names_parsed(st: ParserView) -> Parsed<Seq<Seq<char>>>
    decreases st.rest.len(),
{
    let first = ident_parsed(st);
    match first.result {
        Err(e) => reject(first.state, e),
        Ok(name) => if current(first.state) == TokenView::RParen {
            accept(advanced(first.state), seq![name])
        } else if current(first.state) == TokenView::Comma {
            with_first(name, names_parsed(advanced(first.state)))
        } else {
            reject(
                first.state,
                SyntaxErrorView::Expected {
                    expected: TokenView::Comma,
                    found: current(first.state),
                },
            )
        },
    }
}

/// `Ident "=" Expr`: the name and the expression.
pub open spec fn assign_parsed(st: ParserView) -> Parsed<(Seq<char>, ExprView)> {
    let name = ident_parsed(st);
    match name.result {
        Err(e) => reject(name.state, e),
        Ok(n) => match checked(name.state, TokenView::Eq) {
            Err(e) => reject(name.state, e),
            Ok(_) => {
                let value = expr_parsed(advanced(name.state));
                match value.result {
                    Err(e) => reject(value.state, e),
                    Ok(v) => accept(value.state, (n, v)),
                }
            },
        },
    }
}

/// `Ident "(" (Expr ("," Expr)*)? ")"`: the name and the arguments.
pub open spec fn call_parsed(st: ParserView) -> Parsed<(Seq<char>, Seq<ExprView>)> {
    let name = ident_parsed(st);
    match name.result {
        Err(e) => reject(name.state, e),
        Ok(n) => match checked(name.state, TokenView::LParen) {
            Err(e) => reject(name.state, e),
            Ok(_) => {
                let args = args_parsed(advanced(name.state));
                match args.result {
                    Err(e) => reject(args.state, e),
                    Ok(a) => accept(args.state, (n, a)),
                }
            },
        },
    }
}

/// `Ident "=" Expr`, as an assignment.
pub open spec fn var_assign_parsed(st: ParserView) -> Parsed<StatementView> {
    let def = assign_parsed(st);
    match def.result {
        Err(e) => reject(def.state, e),
        Ok((name, value)) => accept(def.state, StatementView::VarAssign(name, value)),
    }
}

/// `"let" Ident "=" Expr`, at `let`.
pub open spec fn var_def_parsed(st: ParserView) -> Parsed<StatementView> {
    let def = assign_parsed(advanced(st));
    match def.result {
        Err(e) => reject(def.state, e),
        Ok((name, value)) => accept(def.state, StatementView::VarDef(name, value)),
    }
}

/// `Ident "(" (Expr ("," Expr)*)? ")"`, as a statement.
pub open spec fn func_call_parsed(st: ParserView) -> Parsed<StatementView> {
    let call = call_parsed(st);
    match call.result {
        Err(e) => reject(call.state, e),
        Ok((name, args)) => accept(call.state, StatementView::FuncCall(name, args)),
    }
}

/// `"return" Expr`, at `return`.
pub open spec fn return_parsed(st: ParserView) -> Parsed<StatementView> {
    let value = expr_parsed(advanced(st));
    match value.result {
        Err(e) => reject(value.state, e),
        Ok(v) => accept(value.state, StatementView::Return(v)),
    }
}

/// One statement. An identifier starts an assignment when `=` follows it
/// and a call when `(` does.
pub open spec fn stmt_parsed(st: ParserView) -> Parsed<StatementView>
    decreases st.rest.len(), 2nat,
{
    match current(st) {
        TokenView::Return => return_parsed(st),
        TokenView::Fn => if st.global {
            func_def_parsed(st)
        } else {
            reject(st, SyntaxErrorView::NestedFunction)
        },
        TokenView::Let => var_def_parsed(st),
        TokenView::LBrace => {
            let block = block_parsed(st);
            match block.result {
                Err(e) => reject(block.state, e),
                Ok(body) => accept(block.state, StatementView::BlockStmt(body)),
            }
        },
        found => match lookahead(st) {
            TokenView::Eq => var_assign_parsed(st),
            TokenView::LParen => func_call_parsed(st),
            _ => reject(st, SyntaxErrorView::UnexpectedToken { found }),
        },
    }
}

/// `"fn" Ident "(" (Ident ("," Ident)*)? ")" Block`
///
/// The scope is not global from `fn` on, and global again after the body.
/// The parameters consumed a token (`lemma_params_consume` in `laws`): the
/// test of the lengths below always holds, and is there to show that the
/// definition ends.
pub open spec fn func_def_parsed(st: ParserView) -> Parsed<StatementView>
    decreases st.rest.len(), 1nat,
{
    let at_name = advanced(scoped(st, false));
    match current(at_name) {
        TokenView::Str(name) => {
            let at_paren = advanced(at_name);
            match checked(at_paren, TokenView::LParen) {
                Err(e) => reject(at_paren, e),
                Ok(_) => {
                    let params = params_parsed(advanced(at_paren));
                    match params.result {
                        Err(e) => reject(params.state, e),
                        Ok(names) => if params.state.rest.len() < st.rest.len() {
                            let body = block_parsed(params.state);
                            match body.result {
                                Err(e) => reject(body.state, e),
                                Ok(stmts) => accept(
                                    scoped(body.state, true),
                                    StatementView::FuncDef(name, names, stmts),
                                ),
                            }
                        } else {
                            reject(params.state, SyntaxErrorView::NestedFunction)
                        },
                    }
                },
            }
        },
        found => reject(at_name, SyntaxErrorView::ExpectedFunctionName { found }),
    }
}

/// `Block := "{" Statement* "}"`
///
/// Inside the block the scope is not global; after it, the scope is what
/// it was before.
pub open spec fn block_parsed(st: ParserView) -> Parsed<Seq<StatementView>>
    decreases st.rest.len(), 0nat,
{
    match checked(st, TokenView::LBrace) {
        Err(e) => reject(st, e),
        Ok(_) => {
            let body = block_rest_parsed(advanced(scoped(st, false)));
            match body.result {
                Err(e) => reject(body.state, e),
                Ok(stmts) => accept(scoped(body.state, st.global), stmts),
            }
        },
    }
}

/// `Statement* "}"`
///
/// A statement that was parsed consumed a token (`lemma_stmt_consumes` in
/// `laws`):
/// the test of the lengths below always holds, and is there to show that
/// the definition ends.
pub open spec fn block_rest_parsed(st: ParserView) -> Parsed<Seq<StatementView>>
    decreases st.rest.len(), 3nat,
{
    if current(st) == TokenView::RBrace {
        accept(advanced(st), Seq::empty())
    } else {
        let first = stmt_parsed(st);
        match first.result {
            Err(e) => reject(first.state, e),
            Ok(s) => if first.state.rest.len() < st.rest.len() {
                with_first(s, block_rest_parsed(first.state))
            } else {
                reject(first.state, SyntaxErrorView::UnexpectedToken { found: current(st) })
            },
        }
    }
}

/// `Program := Statement* EOF`
///
/// A statement that was parsed consumed a token (`lemma_stmt_consumes` in
/// `laws`):
/// the test of the lengths below always holds, and is there to show that
/// the definition ends.
pub open spec fn program_parsed(st: ParserView) -> Parsed<Seq<StatementView>>
    decreases st.rest.len(),
{
    if current(st) == TokenView::EOF {
        accept(st, Seq::empty())
    } else {
        let first = stmt_parsed(st);
        match first.result {
            Err(e) => reject(first.state, e),
            Ok(s) => if first.state.rest.len() < st.rest.len() {
                with_first(s, program_parsed(first.state))
            } else {
                reject(first.state, SyntaxErrorView::UnexpectedToken { found: current(st) })
            },
        }
    }
}

} // verus!
