//! Expressions.

use vstd::prelude::*;
use vstd::string::StringExecFns;
use crate::lexer::Token;
use crate::number::Number;
use crate::parser::{Parser, parsed, parsed_exprs};
use crate::parser::error::SyntaxError;
use crate::parser::grammar::{
    consumed, expr_parsed, args_parsed, exprs_parsed, with_done,
};

verus! {

/// A binary operator.
#[derive(Debug, Clone, Copy, PartialEq, Eq, Structural)]
pub enum BinOp {
    Add,
    Sub,
    Div,
    Mul,
}

/// A literal value.
#[derive(Debug, PartialEq)]
pub enum ExprValue {
    Num(Number),
}

/// What a literal value is: a number, by the text of its literal.
pub enum ExprValueView {
    Num(Seq<char>),
}

impl View for ExprValue {
    type V = ExprValueView;

    open spec fn view(&self) -> ExprValueView {
        match self {
            ExprValue::Num(n) => ExprValueView::Num(n@),
        }
    }
}

/// How a literal value reads in a message.
pub open spec fn literal_text(v: ExprValueView) -> Seq<char> {
    match v {
        ExprValueView::Num(text) => "number(value: "@ + text + ")"@,
    }
}

impl ExprValue {
    /// How the literal value reads in a message.
    pub fn to_text(&self) -> (r: String)
        ensures
            r@ == literal_text(self@),
    {
        match self {
            ExprValue::Num(n) => String::from_str("number(value: ").concat(n.as_str()).concat(")"),
        }
    }
}

impl Clone for ExprValue {
    fn clone(&self) -> (r: ExprValue)
        ensures
            r@ == self@,
    {
        match self {
            ExprValue::Num(n) => ExprValue::Num(n.clone()),
        }
    }
}

/// An expression. Each node owns its children.
#[derive(Debug, PartialEq)]
pub enum Expr {
    Ident(String),
    Lit(ExprValue),
    Fn(String, Vec<Expr>),
    BinOp(Box<Expr>, BinOp, Box<Expr>),
}

/// What an `Expr` is: the same tree over sequences.
pub enum ExprView {
    Ident(Seq<char>),
    Lit(ExprValueView),
    Fn(Seq<char>, Seq<ExprView>),
    BinOp(Box<ExprView>, BinOp, Box<ExprView>),
}

/// The view of `e`.
pub open spec fn expr_view(e: Expr) -> ExprView
    decreases e,
{
    match e {
        Expr::Ident(name) => ExprView::Ident(name@),
        Expr::Lit(val) => ExprView::Lit(val@),
        Expr::Fn(name, args) => ExprView::Fn(
            name@,
            Seq::new(
                args.len() as nat,
                |i: int|
                    if 0 <= i < args.len() {
                        expr_view(args[i])
                    } else {
                        ExprView::Ident(Seq::empty())
                    },
            ),
        ),
        Expr::BinOp(left, op, right) => ExprView::BinOp(
            Box::new(expr_view(*left)),
            op,
            Box::new(expr_view(*right)),
        ),
    }
}

impl View for Expr {
    type V = ExprView;

    open spec fn view(&self) -> ExprView {
        expr_view(*self)
    }
}

/// The views of a sequence of expressions, in order.
pub open spec fn exprs_view(es: Seq<Expr>) -> Seq<ExprView> {
    Seq::new(es.len(), |i: int| es[i]@)
}

/// The view of a call holds the views of its arguments.
pub proof fn lemma_fn_view(name: String, args: Vec<Expr>)
    ensures
        Expr::Fn(name, args)@ == ExprView::Fn(name@, exprs_view(args@)),
{
    assert(Expr::Fn(name, args)@->Fn_1 =~= exprs_view(args@));
}

/// A copy of `e`.
#[verifier::loop_isolation(false)]
pub fn clone_expr(e: &Expr) -> (r: Expr)
    ensures
        r@ == e@,
    decreases e,
{
    match e {
        Expr::Ident(name) => Expr::Ident(name.clone()),
        Expr::Lit(val) => Expr::Lit(val.clone()),
        Expr::Fn(name, args) => {
            let mut out: Vec<Expr> = Vec::new();
            let mut i: usize = 0;
            while i < args.len()
                invariant
                    i <= args.len(),
                    out.len() == i,
                    forall|j: int| 0 <= j < i ==> out[j]@ == args[j]@,
                decreases args.len() - i,
            {
                let c = clone_expr(&args[i]);
                out.push(c);
                i += 1;
            }
            let r = Expr::Fn(name.clone(), out);
            assert(r@->Fn_1 =~= e@->Fn_1);
            r
        },
        Expr::BinOp(left, op, right) => Expr::BinOp(
            Box::new(clone_expr(left)),
            *op,
            Box::new(clone_expr(right)),
        ),
    }
}

/// A copy of `es`.
pub fn clone_exprs(es: &Vec<Expr>) -> (r: Vec<Expr>)
    ensures
        exprs_view(r@) == exprs_view(es@),
{
    let mut out: Vec<Expr> = Vec::new();
    let mut i: usize = 0;
    while i < es.len()
        invariant
            i <= es.len(),
            out.len() == i,
            forall|j: int| 0 <= j < i ==> out[j]@ == es[j]@,
        decreases es.len() - i,
    {
        out.push(clone_expr(&es[i]));
        i += 1;
    }
    assert(exprs_view(out@) =~= exprs_view(es@));
    out
}

impl Clone for Expr {
    fn clone(&self) -> (r: Expr)
        ensures
            r@ == self@,
    {
        clone_expr(self)
    }
}

/// The left operand and the operator of a binary expression whose right
/// operand has not been read yet.
pub struct ExprHandler {
    left: Option<Expr>,
    operator: Option<BinOp>,
}

impl Parser {
    /// `Expr := Number | Ident | Ident "(" (Expr ("," Expr)*)? ")"`
    pub fn parse_expr(&mut self) -> (res: Result<Expr, SyntaxError>)
        requires
            old(self).wf(),
        ensures
            final(self).wf(),
            parsed(final(self)@, res) == expr_parsed(old(self)@),
            consumed(old(self)@, final(self)@, res is Ok),
        decreases old(self)@.rest.len(), 0nat,
    {
        match self.current().clone() {
            Token::Num(num) => {
                self.advance();
                match Number::parse(num.as_str()) {
                    Some(n) => Ok(Expr::Lit(ExprValue::Num(n))),
                    None => Err(SyntaxError::InvalidNumber { text: num }),
                }
            },
            Token::Str(ident) => {
                match self.lookahead() {
                    Token::LParen => {
                        self.advance();
                        self.advance();
                        match self.parse_args() {
                            Err(e) => Err(e),
                            Ok(args) => {
                                proof {
                                    lemma_fn_view(ident, args);
                                }
                                Ok(Expr::Fn(ident, args))
                            },
                        }
                    },
                    _ => {
                        self.advance();
                        Ok(Expr::Ident(ident))
                    },
                }
            },
            Token::Plus => Err(SyntaxError::UnsupportedOperator { found: Token::Plus }),
            Token::Minus => Err(SyntaxError::UnsupportedOperator { found: Token::Minus }),
            Token::Slash => Err(SyntaxError::UnsupportedOperator { found: Token::Slash }),
            Token::Star => Err(SyntaxError::UnsupportedOperator { found: Token::Star }),
            Token::SemiC => Err(SyntaxError::UnsupportedOperator { found: Token::SemiC }),
            found => Err(SyntaxError::InvalidExpression { found }),
        }
    }

    /// `(Expr ("," Expr)*)? ")"`: the arguments of a call and the
    /// parenthesis that closes it.
    pub fn parse_args(&mut self) -> (res: Result<Vec<Expr>, SyntaxError>)
        requires
            old(self).wf(),
        ensures
            final(self).wf(),
            parsed_exprs(final(self)@, res) == args_parsed(old(self)@),
            consumed(old(self)@, final(self)@, res is Ok),
        decreases old(self)@.rest.len(), 2nat,
    {
        let mut args: Vec<Expr> = Vec::new();
        if *self.current() == Token::RParen {
            self.advance();
            assert(exprs_view(args@) =~= Seq::empty());
            return Ok(args);
        }
        proof {
            let whole = exprs_parsed(self@);
            assert(exprs_view(args@) =~= Seq::empty());
            if whole.result is Ok {
                assert(exprs_view(args@) + whole.result->Ok_0 =~= whole.result->Ok_0);
            }
        }
        loop
            invariant
                self.wf(),
                self@.rest.len() <= old(self)@.rest.len(),
                args_parsed(old(self)@) == with_done(exprs_view(args@), exprs_parsed(self@)),
            decreases self@.rest.len(),
        {
            let ghost done = exprs_view(args@);
            let arg = match self.parse_expr() {
                Err(e) => {
                    return Err(e);
                },
                Ok(arg) => arg,
            };
            args.push(arg);
            assert(exprs_view(args@) =~= done.push(arg@));
            assert(done + seq![arg@] =~= done.push(arg@));
            if *self.current() == Token::RParen {
                self.advance();
                return Ok(args);
            }
            match self.check(Token::Comma) {
                Err(e) => {
                    return Err(e);
                },
                Ok(_) => {},
            }
            self.advance();
            proof {
                let later = exprs_parsed(self@);
                if later.result is Ok {
                    assert(done + (seq![arg@] + later.result->Ok_0) =~= exprs_view(args@)
                        + later.result->Ok_0);
                }
            }
        }
    }
}

} // verus!
