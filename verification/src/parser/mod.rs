//! Statements, and the parser that builds them from tokens.

pub mod error;
pub mod expr;
pub mod grammar;
pub mod laws;

use vstd::prelude::*;
use crate::lexer::{Token, TokenView, Tokenizer, tokens_view, ends_at_eof, no_eof, lex};
pub use crate::parser::error::SyntaxError;
use crate::parser::grammar::SyntaxErrorView;
use crate::parser::expr::{Expr, ExprView, exprs_view, clone_expr, clone_exprs};
use crate::parser::grammar::{
    ParserView, Parsed, accept, reject, consumed, current, lookahead, advanced, scoped, checked,
    ident_parsed, num_parsed, with_done, params_parsed, names_parsed, assign_parsed,
    return_parsed, var_def_parsed, var_assign_parsed, func_call_parsed, stmt_parsed,
    func_def_parsed, block_parsed, block_rest_parsed, program_parsed,
};

verus! {

/// A statement.
#[derive(Debug, PartialEq)]
pub enum Statement {
    FuncCall(String, Vec<Expr>),
    Return(Expr),
    FuncDef(Function, Vec<String>),
    VarDef(String, Expr),
    VarAssign(String, Expr),
    BlockStmt(Block),
}

/// A function as it is written: its name and its body.
#[derive(Debug, PartialEq)]
pub struct Function {
    pub name: String,
    pub body: Block,
}

/// A sequence of statements between braces.
#[derive(Debug, PartialEq)]
pub struct Block {
    pub body: Vec<Statement>,
}

/// A program: its statements, in order.
#[derive(Debug, PartialEq)]
pub struct Program {
    pub content: Vec<Statement>,
}

/// What a `Statement` is: the same tree over sequences. A function
/// definition holds the name, the parameter names and the body.
pub enum StatementView {
    FuncCall(Seq<char>, Seq<ExprView>),
    Return(ExprView),
    FuncDef(Seq<char>, Seq<Seq<char>>, Seq<StatementView>),
    VarDef(Seq<char>, ExprView),
    VarAssign(Seq<char>, ExprView),
    BlockStmt(Seq<StatementView>),
}

/// The views of a sequence of names, in order.
pub open spec fn names_view(names: Seq<String>) -> Seq<Seq<char>> {
    Seq::new(names.len(), |i: int| names[i]@)
}

/// The view of `s`.
pub open spec fn statement_view(s: Statement) -> StatementView
    decreases s,
{
    match s {
        Statement::FuncCall(name, args) => StatementView::FuncCall(name@, exprs_view(args@)),
        Statement::Return(e) => StatementView::Return(e@),
        Statement::FuncDef(f, params) => StatementView::FuncDef(
            f.name@,
            names_view(params@),
            Seq::new(
                f.body.body.len() as nat,
                |i: int|
                    if 0 <= i < f.body.body.len() {
                        statement_view(f.body.body[i])
                    } else {
                        StatementView::BlockStmt(Seq::empty())
                    },
            ),
        ),
        Statement::VarDef(name, e) => StatementView::VarDef(name@, e@),
        Statement::VarAssign(name, e) => StatementView::VarAssign(name@, e@),
        Statement::BlockStmt(b) => StatementView::BlockStmt(
            Seq::new(
                b.body.len() as nat,
                |i: int|
                    if 0 <= i < b.body.len() {
                        statement_view(b.body[i])
                    } else {
                        StatementView::BlockStmt(Seq::empty())
                    },
            ),
        ),
    }
}

impl View for Statement {
    type V = StatementView;

    open spec fn view(&self) -> StatementView {
        statement_view(*self)
    }
}

/// The views of a sequence of statements, in order.
pub open spec fn statements_view(ss: Seq<Statement>) -> Seq<StatementView> {
    Seq::new(ss.len(), |i: int| ss[i]@)
}

impl View for Block {
    type V = Seq<StatementView>;

    open spec fn view(&self) -> Seq<StatementView> {
        statements_view(self.body@)
    }
}

impl View for Program {
    type V = Seq<StatementView>;

    open spec fn view(&self) -> Seq<StatementView> {
        statements_view(self.content@)
    }
}

/// The view of a function definition or of a block holds the views of the
/// statements in it.
pub proof fn lemma_statement_view(s: Statement)
    ensures
        s matches Statement::FuncDef(f, params) ==> s@ == StatementView::FuncDef(
            f.name@,
            names_view(params@),
            f.body@,
        ),
        s matches Statement::BlockStmt(b) ==> s@ == StatementView::BlockStmt(b@),
{
    match s {
        Statement::FuncDef(f, params) => {
            assert(s@->FuncDef_2 =~= f.body@);
        },
        Statement::BlockStmt(b) => {
            assert(s@->BlockStmt_0 =~= b@);
        },
        _ => {},
    }
}

/// A copy of `names`.
pub fn clone_names(names: &Vec<String>) -> (r: Vec<String>)
    ensures
        names_view(r@) == names_view(names@),
{
    let mut out: Vec<String> = Vec::new();
    let mut i: usize = 0;
    while i < names.len()
        invariant
            i <= names.len(),
            out.len() == i,
            forall|j: int| 0 <= j < i ==> out[j]@ == names[j]@,
        decreases names.len() - i,
    {
        out.push(names[i].clone());
        i += 1;
    }
    assert(names_view(out@) =~= names_view(names@));
    out
}

/// A copy of `s`.
pub fn clone_statement(s: &Statement) -> (r: Statement)
    ensures
        r@ == s@,
    decreases s, 1nat,
{
    proof {
        lemma_statement_view(*s);
    }
    let r = match s {
        Statement::FuncCall(name, args) => Statement::FuncCall(name.clone(), clone_exprs(args)),
        Statement::Return(e) => Statement::Return(clone_expr(e)),
        Statement::FuncDef(f, params) => Statement::FuncDef(
            Function { name: f.name.clone(), body: Block { body: clone_body(s, &f.body.body) } },
            clone_names(params),
        ),
        Statement::VarDef(name, e) => Statement::VarDef(name.clone(), clone_expr(e)),
        Statement::VarAssign(name, e) => Statement::VarAssign(name.clone(), clone_expr(e)),
        Statement::BlockStmt(b) => Statement::BlockStmt(Block { body: clone_body(s, &b.body) }),
    };
    proof {
        lemma_statement_view(r);
    }
    r
}

/// A copy of `body`, the statements that `parent` holds.
fn clone_body(parent: &Statement, body: &Vec<Statement>) -> (r: Vec<Statement>)
    requires
        forall|i: int| 0 <= i < body.len() ==> decreases_to!(*parent => #[trigger] body[i]),
    ensures
        statements_view(r@) == statements_view(body@),
    decreases parent, 0nat,
{
    let mut out: Vec<Statement> = Vec::new();
    let mut i: usize = 0;
    while i < body.len()
        invariant
            i <= body.len(),
            out.len() == i,
            forall|j: int| 0 <= j < i ==> out[j]@ == body[j]@,
            forall|i: int| 0 <= i < body.len() ==> decreases_to!(*parent => #[trigger] body[i]),
        decreases body.len() - i,
    {
        out.push(clone_statement(&body[i]));
        i += 1;
    }
    assert(statements_view(out@) =~= statements_view(body@));
    out
}

/// A copy of `ss`.
pub fn clone_statements(ss: &Vec<Statement>) -> (r: Vec<Statement>)
    ensures
        statements_view(r@) == statements_view(ss@),
{
    let mut out: Vec<Statement> = Vec::new();
    let mut i: usize = 0;
    while i < ss.len()
        invariant
            i <= ss.len(),
            out.len() == i,
            forall|j: int| 0 <= j < i ==> out[j]@ == ss[j]@,
        decreases ss.len() - i,
    {
        out.push(clone_statement(&ss[i]));
        i += 1;
    }
    assert(statements_view(out@) =~= statements_view(ss@));
    out
}

impl Clone for Statement {
    fn clone(&self) -> (r: Statement)
        ensures
            r@ == self@,
    {
        clone_statement(self)
    }
}

/// The tokens that a window of two tokens and the stream behind it hold.
pub open spec fn window(cur: TokenView, peek: TokenView, tail: Seq<TokenView>) -> Seq<TokenView> {
    if cur == TokenView::EOF {
        Seq::empty()
    } else if peek == TokenView::EOF {
        seq![cur]
    } else {
        seq![cur, peek] + tail
    }
}

/// The state `st` with what `res` holds, by its view.
pub open spec fn parsed<T: View>(st: ParserView, res: Result<T, SyntaxError>) -> Parsed<T::V> {
    match res {
        Ok(v) => accept(st, v@),
        Err(e) => reject(st, e@),
    }
}

/// What `res` holds, the fault by its view.
pub open spec fn parsed_unit(res: Result<(), SyntaxError>) -> Result<(), SyntaxErrorView> {
    match res {
        Ok(_) => Ok(()),
        Err(e) => Err(e@),
    }
}

/// The state `st` with the expressions that `res` holds, by their views.
pub open spec fn parsed_exprs(st: ParserView, res: Result<Vec<Expr>, SyntaxError>) -> Parsed<
    Seq<ExprView>,
> {
    match res {
        Ok(v) => accept(st, exprs_view(v@)),
        Err(e) => reject(st, e@),
    }
}

/// The state `st` with the names that `res` holds, by their views.
pub open spec fn parsed_names(st: ParserView, res: Result<Vec<String>, SyntaxError>) -> Parsed<
    Seq<Seq<char>>,
> {
    match res {
        Ok(v) => accept(st, names_view(v@)),
        Err(e) => reject(st, e@),
    }
}

/// The state `st` with the name and the expression that `res` holds, by
/// their views.
pub open spec fn parsed_binding(
    st: ParserView,
    res: Result<(String, Expr), SyntaxError>,
) -> Parsed<(Seq<char>, ExprView)> {
    match res {
        Ok((name, value)) => accept(st, (name@, value@)),
        Err(e) => reject(st, e@),
    }
}

/// A recursive-descent parser over a stream of tokens, with a window of
/// two tokens: the current one and the one after it.
pub struct Parser {
    lexer: Tokenizer,
    cur: Token,
    peek: Token,
    global: bool,
}

impl View for Parser {
    type V = ParserView;

    closed spec fn view(&self) -> ParserView {
        ParserView { rest: window(self.cur@, self.peek@, self.lexer@), global: self.global }
    }
}

impl Parser {
    /// The window shows the head of the stream: behind an `EOF` only `EOF`
    /// follows.
    pub closed spec fn wf(&self) -> bool {
        &&& self.lexer.wf()
        &&& self.cur@ == TokenView::EOF ==> self.peek@ == TokenView::EOF
        &&& self.peek@ == TokenView::EOF ==> self.lexer@.len() == 0
    }

    /// No token that is left is `EOF`.
    pub proof fn lemma_no_eof(&self)
        requires
            self.wf(),
        ensures
            no_eof(self@.rest),
    {
        self.lexer.lemma_no_eof();
    }

    /// A parser over the tokens of `input`, in global scope.
    pub fn new(input: &str) -> (r: Parser)
        ensures
            r.wf(),
            r@ == (ParserView { rest: lex(input@), global: true }),
    {
        Parser::over(Tokenizer::new(input))
    }

    /// A parser over `tokens`, in global scope. The input ends at the first
    /// `EOF` among them.
    pub fn from_tokens(tokens: Vec<Token>) -> (r: Parser)
        ensures
            r.wf(),
            r@.global,
            ends_at_eof(r@.rest, tokens_view(tokens@)),
    {
        Parser::over(Tokenizer::from_tokens(tokens))
    }

    /// A parser over what `lexer` has left, in global scope.
    pub fn over(lexer: Tokenizer) -> (r: Parser)
        requires
            lexer.wf(),
        ensures
            r.wf(),
            r@ == (ParserView { rest: lexer@, global: true }),
    {
        let mut parser = Parser { lexer, cur: Token::Empty, peek: Token::Empty, global: true };
        proof {
            lexer.lemma_no_eof();
            assert(parser@.rest.skip(2) =~= lexer@);
        }
        parser.advance();
        assert(parser@.rest.skip(1) =~= lexer@);
        parser.advance();
        parser
    }

    /// The current token.
    pub fn current(&self) -> (t: &Token)
        requires
            self.wf(),
        ensures
            t@ == current(self@),
    {
        &self.cur
    }

    /// The token after the current one.
    pub fn lookahead(&self) -> (t: &Token)
        requires
            self.wf(),
        ensures
            t@ == lookahead(self@),
    {
        &self.peek
    }

    /// Whether the parser is in global scope.
    pub fn is_global(&self) -> (b: bool)
        ensures
            b == self@.global,
    {
        self.global
    }

    /// Consumes the current token and returns it.
    pub fn advance(&mut self) -> (prev: Token)
        requires
            old(self).wf(),
        ensures
            final(self).wf(),
            prev@ == current(old(self)@),
            final(self)@ == advanced(old(self)@),
    {
        proof {
            self.lexer.lemma_no_eof();
        }
        let prev = self.cur.clone();
        self.cur = self.peek.clone();
        self.peek = self.lexer.next();
        proof {
            assert(final(self)@.rest =~= advanced(old(self)@).rest);
        }
        prev
    }

    /// The current token is `expected`.
    pub fn check(&self, expected: Token) -> (res: Result<(), SyntaxError>)
        requires
            self.wf(),
        ensures
            parsed_unit(res) == checked(self@, expected@),
    {
        if self.cur == expected {
            Ok(())
        } else {
            Err(SyntaxError::Expected { expected, found: self.cur.clone() })
        }
    }

    /// Consumes the current token; the one after it is `expected`.
    pub fn expect(&mut self, expected: Token) -> (res: Result<(), SyntaxError>)
        requires
            old(self).wf(),
        ensures
            final(self).wf(),
            final(self)@ == advanced(old(self)@),
            parsed_unit(res) == checked(advanced(old(self)@), expected@),
    {
        self.advance();
        self.check(expected)
    }

    /// An identifier. The current token is consumed whether it is one or
    /// not.
    pub fn parse_ident(&mut self) -> (res: Result<String, SyntaxError>)
        requires
            old(self).wf(),
        ensures
            final(self).wf(),
            parsed(final(self)@, res) == ident_parsed(old(self)@),
    {
        let val = match &self.cur {
            Token::Str(val) => Ok(val.clone()),
            _ => Err(SyntaxError::ExpectedIdentifier { found: self.cur.clone() }),
        };
        self.advance();
        val
    }

    /// A number token. The current token is consumed whether it is one or
    /// not.
    pub fn parse_num(&mut self) -> (res: Result<String, SyntaxError>)
        requires
            old(self).wf(),
        ensures
            final(self).wf(),
            parsed(final(self)@, res) == num_parsed(old(self)@),
    {
        let val = match &self.cur {
            Token::Num(val) => Ok(val.clone()),
            _ => Err(SyntaxError::ExpectedNumber { found: self.cur.clone() }),
        };
        self.advance();
        val
    }

    fn set_global(&mut self, global: bool)
        requires
            old(self).wf(),
        ensures
            final(self).wf(),
            final(self)@ == scoped(old(self)@, global),
    {
        self.global = global;
    }

    /// `(Ident ("," Ident)*)? ")"`
    fn parse_params(&mut self) -> (res: Result<Vec<String>, SyntaxError>)
        requires
            old(self).wf(),
        ensures
            final(self).wf(),
            parsed_names(final(self)@, res) == params_parsed(old(self)@),
            consumed(old(self)@, final(self)@, res is Ok),
    {
        let mut names: Vec<String> = Vec::new();
        if self.cur == Token::RParen {
            self.advance();
            assert(names_view(names@) =~= Seq::empty());
            return Ok(names);
        }
        proof {
            let whole = names_parsed(self@);
            assert(names_view(names@) =~= Seq::empty());
            if whole.result is Ok {
                assert(names_view(names@) + whole.result->Ok_0 =~= whole.result->Ok_0);
            }
        }
        loop
            invariant
                self.wf(),
                self@.rest.len() <= old(self)@.rest.len(),
                params_parsed(old(self)@) == with_done(names_view(names@), names_parsed(self@)),
            decreases self@.rest.len(),
        {
            let ghost before = self@;
            let ghost done = names_view(names@);
            let name = match self.parse_ident() {
                Err(e) => {
                    return Err(e);
                },
                Ok(name) => name,
            };
            names.push(name);
            assert(names_view(names@) =~= done.push(name@));
            assert(done + seq![name@] =~= done.push(name@));
            if self.cur == Token::RParen {
                self.advance();
                return Ok(names);
            }
            match self.check(Token::Comma) {
                Err(e) => {
                    return Err(e);
                },
                Ok(_) => {},
            }
            self.advance();
            proof {
                let later = names_parsed(self@);
                if later.result is Ok {
                    assert(done + (seq![name@] + later.result->Ok_0) =~= names_view(names@)
                        + later.result->Ok_0);
                }
            }
        }
    }

    /// `Ident "=" Expr`
    fn parse_binding(&mut self) -> (res: Result<(String, Expr), SyntaxError>)
        requires
            old(self).wf(),
        ensures
            final(self).wf(),
            parsed_binding(final(self)@, res) == assign_parsed(old(self)@),
            consumed(old(self)@, final(self)@, res is Ok),
    {
        let name = match self.parse_ident() {
            Err(e) => {
                return Err(e);
            },
            Ok(name) => name,
        };
        match self.check(Token::Eq) {
            Err(e) => {
                return Err(e);
            },
            Ok(_) => {},
        }
        self.advance();
        match self.parse_expr() {
            Err(e) => Err(e),
            Ok(expr) => Ok((name, expr)),
        }
    }

    /// `"return" Expr`, at `return`.
    fn parse_return(&mut self) -> (res: Result<Statement, SyntaxError>)
        requires
            old(self).wf(),
        ensures
            final(self).wf(),
            parsed(final(self)@, res) == return_parsed(old(self)@),
            consumed(old(self)@, final(self)@, res is Ok),
    {
        self.advance();
        match self.parse_expr() {
            Err(e) => Err(e),
            Ok(expr) => Ok(Statement::Return(expr)),
        }
    }

    /// `"let" Ident "=" Expr`, at `let`.
    fn parse_var_def(&mut self) -> (res: Result<Statement, SyntaxError>)
        requires
            old(self).wf(),
        ensures
            final(self).wf(),
            parsed(final(self)@, res) == var_def_parsed(old(self)@),
            consumed(old(self)@, final(self)@, res is Ok),
    {
        self.advance();
        match self.parse_binding() {
            Err(e) => Err(e),
            Ok((name, expr)) => Ok(Statement::VarDef(name, expr)),
        }
    }

    /// `Ident "=" Expr`, as a statement.
    fn parse_var_assign(&mut self) -> (res: Result<Statement, SyntaxError>)
        requires
            old(self).wf(),
        ensures
            final(self).wf(),
            parsed(final(self)@, res) == var_assign_parsed(old(self)@),
            consumed(old(self)@, final(self)@, res is Ok),
    {
        match self.parse_binding() {
            Err(e) => Err(e),
            Ok((name, expr)) => Ok(Statement::VarAssign(name, expr)),
        }
    }

    /// `Ident "(" (Expr ("," Expr)*)? ")"`, as a statement.
    fn parse_func_call(&mut self) -> (res: Result<Statement, SyntaxError>)
        requires
            old(self).wf(),
        ensures
            final(self).wf(),
            parsed(final(self)@, res) == func_call_parsed(old(self)@),
            consumed(old(self)@, final(self)@, res is Ok),
    {
        let name = match self.parse_ident() {
            Err(e) => {
                return Err(e);
            },
            Ok(name) => name,
        };
        match self.check(Token::LParen) {
            Err(e) => {
                return Err(e);
            },
            Ok(_) => {},
        }
        self.advance();
        match self.parse_args() {
            Err(e) => Err(e),
            Ok(args) => Ok(Statement::FuncCall(name, args)),
        }
    }

    /// `"fn" Ident "(" (Ident ("," Ident)*)? ")" Block`, at `fn`.
    fn parse_func_def(&mut self) -> (res: Result<Statement, SyntaxError>)
        requires
            old(self).wf(),
        ensures
            final(self).wf(),
            parsed(final(self)@, res) == func_def_parsed(old(self)@),
            consumed(old(self)@, final(self)@, res is Ok),
        decreases old(self)@.rest.len(), 1nat,
    {
        self.set_global(false);
        self.advance();
        let name = match &self.cur {
            Token::Str(name) => name.clone(),
            _ => {
                return Err(SyntaxError::ExpectedFunctionName { found: self.cur.clone() });
            },
        };
        match self.expect(Token::LParen) {
            Err(e) => {
                return Err(e);
            },
            Ok(_) => {},
        }
        self.advance();
        let args = match self.parse_params() {
            Err(e) => {
                return Err(e);
            },
            Ok(args) => args,
        };
        let body = match self.parse_block() {
            Err(e) => {
                return Err(e);
            },
            Ok(body) => body,
        };
        self.set_global(true);
        let stmt = Statement::FuncDef(Function { name, body }, args);
        proof {
            lemma_statement_view(stmt);
        }
        Ok(stmt)
    }

    /// One statement.
    fn parse_statement(&mut self) -> (res: Result<Statement, SyntaxError>)
        requires
            old(self).wf(),
        ensures
            final(self).wf(),
            parsed(final(self)@, res) == stmt_parsed(old(self)@),
            consumed(old(self)@, final(self)@, res is Ok),
        decreases old(self)@.rest.len(), 2nat,
    {
        match &self.cur {
            Token::Return => self.parse_return(),
            Token::Fn => {
                if self.global {
                    self.parse_func_def()
                } else {
                    Err(SyntaxError::NestedFunction)
                }
            },
            Token::Let => self.parse_var_def(),
            Token::LBrace => {
                match self.parse_block() {
                    Err(e) => Err(e),
                    Ok(block) => {
                        let stmt = Statement::BlockStmt(block);
                        proof {
                            lemma_statement_view(stmt);
                        }
                        Ok(stmt)
                    },
                }
            },
            _ => {
                match &self.peek {
                    Token::Eq => self.parse_var_assign(),
                    Token::LParen => self.parse_func_call(),
                    _ => Err(SyntaxError::UnexpectedToken { found: self.cur.clone() }),
                }
            },
        }
    }

    /// `"{" Statement* "}"`
    fn parse_block(&mut self) -> (res: Result<Block, SyntaxError>)
        requires
            old(self).wf(),
        ensures
            final(self).wf(),
            parsed(final(self)@, res) == block_parsed(old(self)@),
            consumed(old(self)@, final(self)@, res is Ok),
        decreases old(self)@.rest.len(), 0nat,
    {
        match self.check(Token::LBrace) {
            Err(e) => {
                return Err(e);
            },
            Ok(_) => {},
        }
        let outer = self.global;
        let mut block = Block { body: Vec::new() };
        self.set_global(false);
        self.advance();
        let ghost start = self@;
        proof {
            let whole = block_rest_parsed(start);
            assert(block@ =~= Seq::empty());
            if whole.result is Ok {
                assert(block@ + whole.result->Ok_0 =~= whole.result->Ok_0);
            }
        }
        while self.cur != Token::RBrace
            invariant
                self.wf(),
                self@.rest.len() <= start.rest.len(),
                start == advanced(scoped(old(self)@, false)),
                current(old(self)@) == TokenView::LBrace,
                block_rest_parsed(start) == with_done(block@, block_rest_parsed(self@)),
            decreases self@.rest.len(),
        {
            let ghost done = block@;
            let stmt = match self.parse_statement() {
                Err(e) => {
                    return Err(e);
                },
                Ok(stmt) => stmt,
            };
            block.body.push(stmt);
            proof {
                assert(block@ =~= done.push(stmt@));
                let later = block_rest_parsed(self@);
                if later.result is Ok {
                    assert(done + (seq![stmt@] + later.result->Ok_0) =~= block@
                        + later.result->Ok_0);
                }
            }
        }
        self.advance();
        self.set_global(outer);
        proof {
            assert(block@ + Seq::<StatementView>::empty() =~= block@);
        }
        Ok(block)
    }

    /// Parses the whole input: `Statement* EOF`.
    pub fn parse(&mut self) -> (res: Result<Program, SyntaxError>)
        requires
            old(self).wf(),
        ensures
            final(self).wf(),
            parsed(final(self)@, res) == program_parsed(old(self)@),
    {
        let mut prog = Program { content: Vec::new() };
        proof {
            let whole = program_parsed(self@);
            assert(prog@ =~= Seq::empty());
            if whole.result is Ok {
                assert(prog@ + whole.result->Ok_0 =~= whole.result->Ok_0);
            }
        }
        while self.cur != Token::EOF
            invariant
                self.wf(),
                program_parsed(old(self)@) == with_done(prog@, program_parsed(self@)),
            decreases self@.rest.len(),
        {
            let ghost done = prog@;
            let stmt = match self.parse_statement() {
                Err(e) => {
                    return Err(e);
                },
                Ok(stmt) => stmt,
            };
            prog.content.push(stmt);
            proof {
                assert(prog@ =~= done.push(stmt@));
                let later = program_parsed(self@);
                if later.result is Ok {
                    assert(done + (seq![stmt@] + later.result->Ok_0) =~= prog@
                        + later.result->Ok_0);
                }
            }
        }
        proof {
            assert(prog@ + Seq::<StatementView>::empty() =~= prog@);
        }
        Ok(prog)
    }
}

} // verus!
