//! The tree-walking evaluator.

pub mod laws;
pub mod semantics;

pub use crate::eval::semantics::EvalError;

use vstd::prelude::*;
use vstd::string::StringExecFns;
use crate::number::Number;
use crate::parser::{
    Statement, Program, statements_view, names_view, clone_statements, clone_names,
    lemma_statement_view,
};
use crate::parser::expr::{Expr, ExprValue, exprs_view, lemma_fn_view};
use crate::eval::semantics::{
    ValueView, VariableView, EvalFunctionView, EvalState, Outcome, state_wf, var_names,
    fn_names, is_first, value_in, visible, assign, bind, prepend,
    expr_outcome, args_outcome, call_outcome, eval_outcome, run_outcome, assign_outcome,
    stmt_outcome, lemma_first_index, lemma_push_fresh, done, fail,
};

verus! {

/// How deep calls may nest in an evaluator made by `Q9Eval::new`.
pub const DEFAULT_CALL_LIMIT: usize = 64;

/// A value at run time.
#[derive(Debug, PartialEq)]
pub enum Value {
    Num(Number),
    /// No value: what a statement sequence yields when no `return` was hit.
    Void,
}

impl View for Value {
    type V = ValueView;

    open spec fn view(&self) -> ValueView {
        match self {
            Value::Num(n) => ValueView::Num(n@),
            Value::Void => ValueView::Void,
        }
    }
}

impl Clone for Value {
    fn clone(&self) -> (r: Value)
        ensures
            r@ == self@,
    {
        match self {
            Value::Num(n) => Value::Num(n.clone()),
            Value::Void => Value::Void,
        }
    }
}

/// How a value reads in a message.
pub open spec fn value_text(v: ValueView) -> Seq<char> {
    match v {
        ValueView::Num(text) => "number value (value: "@ + text + ")"@,
        ValueView::Void => "void value"@,
    }
}

impl Value {
    /// How the value reads in a message.
    pub fn to_text(&self) -> (r: String)
        ensures
            r@ == value_text(self@),
    {
        match self {
            Value::Num(n) => String::from_str("number value (value: ").concat(n.as_str()).concat(
                ")",
            ),
            Value::Void => String::from_str("void value"),
        }
    }
}

impl From<ExprValue> for Value {
    fn from(value: ExprValue) -> (r: Value) {
        match value {
            ExprValue::Num(num) => Value::Num(num),
        }
    }
}

impl vstd::std_specs::convert::FromSpecImpl<ExprValue> for Value {
    open spec fn obeys_from_spec() -> bool {
        true
    }

    open spec fn from_spec(value: ExprValue) -> Value {
        match value {
            ExprValue::Num(num) => Value::Num(num),
        }
    }
}

/// A name bound to a value.
#[derive(Debug, PartialEq)]
pub struct EvalVariable {
    name: String,
    val: Value,
}

impl View for EvalVariable {
    type V = VariableView;

    closed spec fn view(&self) -> VariableView {
        VariableView { name: self.name@, val: self.val@ }
    }
}

impl EvalVariable {
    /// `name` bound to `val`.
    pub fn new(name: String, val: Value) -> (r: EvalVariable)
        ensures
            r@ == (VariableView { name: name@, val: val@ }),
    {
        EvalVariable { name, val }
    }

    /// The name that is bound.
    pub fn name(&self) -> (r: &String)
        ensures
            r@ == self@.name,
    {
        &self.name
    }

    /// The value that the name is bound to.
    pub fn value(&self) -> (r: &Value)
        ensures
            r@ == self@.val,
    {
        &self.val
    }
}

/// A function as the evaluator keeps it: name, body and parameter names.
pub struct EvalFunction {
    name: String,
    body: Vec<Statement>,
    args: Vec<String>,
}

impl View for EvalFunction {
    type V = EvalFunctionView;

    closed spec fn view(&self) -> EvalFunctionView {
        EvalFunctionView {
            name: self.name@,
            body: statements_view(self.body@),
            args: names_view(self.args@),
        }
    }
}

/// The views of a sequence of variables, in order.
pub open spec fn variables_view(vars: Seq<EvalVariable>) -> Seq<VariableView> {
    Seq::new(vars.len(), |i: int| vars[i]@)
}

/// The views of a sequence of functions, in order.
pub open spec fn functions_view(fns: Seq<EvalFunction>) -> Seq<EvalFunctionView> {
    Seq::new(fns.len(), |i: int| fns[i]@)
}

/// The views of a sequence of values, in order.
pub open spec fn values_view(vals: Seq<Value>) -> Seq<ValueView> {
    Seq::new(vals.len(), |i: int| vals[i]@)
}

/// The view of the value that `v` holds, if it holds one.
pub open spec fn option_view(v: Option<Value>) -> Option<ValueView> {
    match v {
        Some(v) => Some(v@),
        None => None,
    }
}

/// The views of the bindings that `b` holds, if it holds any.
pub open spec fn bindings_view(b: Option<Vec<EvalVariable>>) -> Option<Seq<VariableView>> {
    match b {
        Some(b) => Some(variables_view(b@)),
        None => None,
    }
}

/// The state `st` with the value or the fault that `res` holds.
pub open spec fn value_outcome(st: EvalState, res: Result<Value, EvalError>) -> Outcome<ValueView> {
    match res {
        Ok(v) => done(st, v@),
        Err(e) => fail(st, e),
    }
}

/// The state `st` with the values or the fault that `res` holds.
pub open spec fn values_outcome(st: EvalState, res: Result<Vec<Value>, EvalError>) -> Outcome<
    Seq<ValueView>,
> {
    match res {
        Ok(v) => done(st, values_view(v@)),
        Err(e) => fail(st, e),
    }
}

/// The state `st` with what a statement gave: the value of a `return`, no
/// value, or the fault.
pub open spec fn step_outcome(st: EvalState, res: Result<Option<Value>, EvalError>) -> Outcome<
    Option<ValueView>,
> {
    match res {
        Ok(v) => done(st, option_view(v)),
        Err(e) => fail(st, e),
    }
}

/// The state `st` with the fault that `res` holds, if it holds one.
pub open spec fn unit_outcome(st: EvalState, res: Result<(), EvalError>) -> Outcome<()> {
    match res {
        Ok(_) => done(st, ()),
        Err(e) => fail(st, e),
    }
}

/// The index of the first variable of that name.
fn find_var(vars: &Vec<EvalVariable>, name: &String) -> (r: Option<usize>)
    ensures
        match r {
            Some(i) => is_first(var_names(variables_view(vars@)), name@, i as int),
            None => !var_names(variables_view(vars@)).contains(name@),
        },
{
    let ghost names = var_names(variables_view(vars@));
    let mut i: usize = 0;
    while i < vars.len()
        invariant
            i <= vars.len(),
            names == var_names(variables_view(vars@)),
            forall|j: int| 0 <= j < i ==> names[j] != name@,
        decreases vars.len() - i,
    {
        if vars[i].name == *name {
            return Some(i);
        }
        i += 1;
    }
    None
}

/// The index of the first function of that name.
fn find_fn(fns: &Vec<EvalFunction>, name: &String) -> (r: Option<usize>)
    ensures
        match r {
            Some(i) => is_first(fn_names(functions_view(fns@)), name@, i as int),
            None => !fn_names(functions_view(fns@)).contains(name@),
        },
{
    let ghost names = fn_names(functions_view(fns@));
    let mut i: usize = 0;
    while i < fns.len()
        invariant
            i <= fns.len(),
            names == fn_names(functions_view(fns@)),
            forall|j: int| 0 <= j < i ==> names[j] != name@,
        decreases fns.len() - i,
    {
        if fns[i].name == *name {
            return Some(i);
        }
        i += 1;
    }
    None
}

/// The value of the first variable of that name.
fn value_of(vars: &Vec<EvalVariable>, name: &String) -> (r: Option<Value>)
    ensures
        option_view(r) == value_in(variables_view(vars@), name@),
{
    match find_var(vars, name) {
        Some(i) => {
            proof {
                lemma_first_index(var_names(variables_view(vars@)), name@, i as int);
            }
            Some(vars[i].val.clone())
        },
        None => None,
    }
}

/// Parameters bound to values, position by position.
fn bind_params(params: &Vec<String>, vals: &Vec<Value>) -> (r: Vec<EvalVariable>)
    requires
        params.len() == vals.len(),
    ensures
        variables_view(r@) == bind(names_view(params@), values_view(vals@)),
{
    let mut out: Vec<EvalVariable> = Vec::new();
    let mut i: usize = 0;
    while i < params.len()
        invariant
            i <= params.len(),
            params.len() == vals.len(),
            out.len() == i,
            forall|j: int|
                0 <= j < i ==> out[j]@ == (VariableView { name: params[j]@, val: vals[j]@ }),
        decreases params.len() - i,
    {
        out.push(EvalVariable { name: params[i].clone(), val: vals[i].clone() });
        i += 1;
    }
    assert(variables_view(out@) =~= bind(names_view(params@), values_view(vals@)));
    out
}

/// The evaluator: a program, and the state that evaluating statements
/// reads and changes.
pub struct Q9Eval {
    pub prog: Program,
    vars: Vec<EvalVariable>,
    locals: Vec<EvalVariable>,
    fns: Vec<EvalFunction>,
    global: bool,
    depth: usize,
    limit: usize,
}

impl View for Q9Eval {
    type V = EvalState;

    closed spec fn view(&self) -> EvalState {
        EvalState {
            vars: variables_view(self.vars@),
            locals: variables_view(self.locals@),
            fns: functions_view(self.fns@),
            global: self.global,
        }
    }
}

impl Q9Eval {
    /// The program that the evaluator holds.
    pub closed spec fn program(&self) -> Program {
        self.prog
    }

    /// The number of function calls that are running.
    pub closed spec fn depth(&self) -> nat {
        self.depth as nat
    }

    /// How deep calls may nest.
    pub closed spec fn limit(&self) -> nat {
        self.limit as nat
    }

    /// No name is defined twice in the global table or in the function
    /// table, and the calls that are running are within the limit.
    pub closed spec fn wf(&self) -> bool {
        &&& state_wf(self@)
        &&& self.depth <= self.limit
    }

    /// `self` has the program, the depth and the limit of `other`.
    pub open spec fn same_frame(&self, other: &Q9Eval) -> bool {
        &&& self.program() == other.program()
        &&& self.depth() == other.depth()
        &&& self.limit() == other.limit()
    }

    /// An evaluator for `prog`, in global scope, with nothing defined.
    pub fn new(prog: Program) -> (r: Q9Eval)
        ensures
            r.wf(),
            r.program() == prog,
            r.depth() == 0,
            r.limit() == DEFAULT_CALL_LIMIT,
            r@ == (EvalState {
                vars: Seq::empty(),
                locals: Seq::empty(),
                fns: Seq::empty(),
                global: true,
            }),
    {
        Q9Eval::with_call_limit(prog, DEFAULT_CALL_LIMIT)
    }

    /// An evaluator in which calls nest at most `limit` deep. Every call
    /// that is running takes room on the machine's stack: the limit is to
    /// be one that the stack can hold.
    pub fn with_call_limit(prog: Program, limit: usize) -> (r: Q9Eval)
        ensures
            r.wf(),
            r.program() == prog,
            r.depth() == 0,
            r.limit() == limit,
            r@ == (EvalState {
                vars: Seq::empty(),
                locals: Seq::empty(),
                fns: Seq::empty(),
                global: true,
            }),
    {
        let r = Q9Eval {
            prog,
            vars: Vec::new(),
            locals: Vec::new(),
            fns: Vec::new(),
            global: true,
            depth: 0,
            limit,
        };
        assert(r@.vars =~= Seq::empty());
        assert(r@.locals =~= Seq::empty());
        assert(r@.fns =~= Seq::empty());
        r
    }

    fn lookup(&self, name: &String) -> (r: Option<Value>)
        ensures
            option_view(r) == visible(self@, name@),
    {
        match value_of(&self.vars, name) {
            Some(v) => Some(v),
            None => value_of(&self.locals, name),
        }
    }

    /// The value that `vname` stands for: the global table is searched
    /// first, then the local set.
    pub fn get_val_from_var(&self, vname: &str) -> (r: Option<Value>)
        ensures
            option_view(r) == visible(self@, vname@),
    {
        let name = vname.to_owned();
        self.lookup(&name)
    }

    /// Evaluates `stmts` in order, with `fn_args` added to the local set
    /// first. The value is that of the first `return`, or `Void`.
    pub fn eval(&mut self, stmts: Vec<Statement>, fn_args: Option<Vec<EvalVariable>>) -> (res:
        Result<Value, EvalError>)
        requires
            old(self).wf(),
        ensures
            final(self).wf(),
            final(self).same_frame(old(self)),
            value_outcome(final(self)@, res) == eval_outcome(
                old(self)@,
                old(self).depth(),
                old(self).limit(),
                statements_view(stmts@),
                bindings_view(fn_args),
            ),
    {
        self.run_with(&stmts, fn_args)
    }

    /// Calls the function `name` with the values of `args`.
    pub fn call_fn(&mut self, name: &str, args: Vec<Expr>) -> (res: Result<Value, EvalError>)
        requires
            old(self).wf(),
        ensures
            final(self).wf(),
            final(self).same_frame(old(self)),
            value_outcome(final(self)@, res) == call_outcome(
                old(self)@,
                old(self).depth(),
                old(self).limit(),
                name@,
                exprs_view(args@),
            ),
    {
        let name = name.to_owned();
        self.call(&name, &args)
    }

    /// Gives the variable `vname` the value of `expr`.
    pub fn set_val(&mut self, vname: &str, expr: Expr) -> (res: Result<(), EvalError>)
        requires
            old(self).wf(),
        ensures
            final(self).wf(),
            final(self).same_frame(old(self)),
            unit_outcome(final(self)@, res) == assign_outcome(
                old(self)@,
                old(self).depth(),
                old(self).limit(),
                vname@,
                expr@,
            ),
    {
        let name = vname.to_owned();
        self.assign_value(&name, &expr)
    }

    /// The value of `expr`.
    pub fn eval_expr(&mut self, expr: Expr) -> (res: Result<Value, EvalError>)
        requires
            old(self).wf(),
        ensures
            final(self).wf(),
            final(self).same_frame(old(self)),
            value_outcome(final(self)@, res) == expr_outcome(
                old(self)@,
                old(self).depth(),
                old(self).limit(),
                expr@,
            ),
    {
        self.exec_expr(&expr)
    }

    /// Evaluates the evaluator's own program.
    pub fn run(&mut self) -> (res: Result<Value, EvalError>)
        requires
            old(self).wf(),
        ensures
            final(self).wf(),
            final(self).same_frame(old(self)),
            value_outcome(final(self)@, res) == eval_outcome(
                old(self)@,
                old(self).depth(),
                old(self).limit(),
                old(self).program()@,
                None,
            ),
    {
        let stmts = clone_statements(&self.prog.content);
        self.run_with(&stmts, None)
    }

    fn exec_expr(&mut self, e: &Expr) -> (res: Result<Value, EvalError>)
        requires
            old(self).wf(),
        ensures
            final(self).wf(),
            final(self).same_frame(old(self)),
            value_outcome(final(self)@, res) == expr_outcome(
                old(self)@,
                old(self).depth(),
                old(self).limit(),
                e@,
            ),
        decreases old(self).limit - old(self).depth, 0nat, e, 0nat,
    {
        match e {
            Expr::Fn(name, args) => {
                proof {
                    lemma_fn_view(*name, *args);
                }
                self.call(name, args)
            },
            Expr::Ident(name) => match self.lookup(name) {
                Some(v) => Ok(v),
                None => Err(EvalError::UndefinedVariable),
            },
            Expr::Lit(val) => Ok(Value::from(val.clone())),
            Expr::BinOp(_, _, _) => Err(EvalError::UnsupportedExpression),
        }
    }

    #[verifier::loop_isolation(false)]
    fn exec_args(&mut self, args: &Vec<Expr>) -> (res: Result<Vec<Value>, EvalError>)
        requires
            old(self).wf(),
        ensures
            final(self).wf(),
            final(self).same_frame(old(self)),
            values_outcome(final(self)@, res) == args_outcome(
                old(self)@,
                old(self).depth(),
                old(self).limit(),
                exprs_view(args@),
            ),
            res matches Ok(vals) ==> vals.len() == args.len(),
        decreases old(self).limit - old(self).depth, 0nat, args, 0nat,
    {
        let ghost all = exprs_view(args@);
        let ghost d = self.depth();
        let ghost l = self.limit();
        let mut vals: Vec<Value> = Vec::new();
        let mut i: usize = 0;
        assert(all.skip(0) =~= all);
        proof {
            let whole = args_outcome(self@, d, l, all);
            assert(values_view(vals@) =~= Seq::empty());
            if whole.result is Ok {
                assert(values_view(vals@) + whole.result->Ok_0 =~= whole.result->Ok_0);
            }
        }
        while i < args.len()
            invariant
                i <= args.len(),
                vals.len() == i,
                self.wf(),
                self.same_frame(old(self)),
                args_outcome(old(self)@, d, l, all) == prepend(
                    values_view(vals@),
                    args_outcome(self@, d, l, all.skip(i as int)),
                ),
            decreases args.len() - i,
        {
            let ghost before = self@;
            let ghost rest = all.skip(i as int);
            assert(rest[0] == args[i as int]@);
            assert(rest.skip(1) =~= all.skip(i + 1));
            match self.exec_expr(&args[i]) {
                Err(e) => {
                    return Err(e);
                },
                Ok(v) => {
                    let ghost later = args_outcome(self@, d, l, all.skip(i + 1));
                    let ghost done_vals = values_view(vals@);
                    vals.push(v);
                    proof {
                        assert(values_view(vals@) =~= done_vals + seq![v@]);
                        if later.result is Ok {
                            assert(done_vals + (seq![v@] + later.result->Ok_0) =~= values_view(
                                vals@,
                            ) + later.result->Ok_0);
                        }
                    }
                },
            }
            i += 1;
        }
        proof {
            assert(all.skip(i as int) =~= Seq::empty());
            assert(values_view(vals@) + Seq::<ValueView>::empty() =~= values_view(vals@));
        }
        Ok(vals)
    }

    fn call(&mut self, name: &String, args: &Vec<Expr>) -> (res: Result<Value, EvalError>)
        requires
            old(self).wf(),
        ensures
            final(self).wf(),
            final(self).same_frame(old(self)),
            value_outcome(final(self)@, res) == call_outcome(
                old(self)@,
                old(self).depth(),
                old(self).limit(),
                name@,
                exprs_view(args@),
            ),
        decreases old(self).limit - old(self).depth, 0nat, args, 1nat,
    {
        let idx = match find_fn(&self.fns, name) {
            None => {
                return Err(EvalError::UndefinedFunction);
            },
            Some(idx) => idx,
        };
        proof {
            lemma_first_index(fn_names(self@.fns), name@, idx as int);
        }
        if self.fns[idx].args.len() != args.len() {
            return Err(EvalError::Arity);
        }
        let params = clone_names(&self.fns[idx].args);
        let body = clone_statements(&self.fns[idx].body);
        let vals = match self.exec_args(args) {
            Err(e) => {
                return Err(e);
            },
            Ok(vals) => vals,
        };
        if self.depth >= self.limit {
            return Err(EvalError::RecursionLimit);
        }
        assert(params.len() == names_view(params@).len());
        let bindings = bind_params(&params, &vals);
        self.locals.clear();
        self.global = false;
        self.depth = self.depth + 1;
        let res = self.run_with(&body, Some(bindings));
        self.depth = self.depth - 1;
        self.global = true;
        res
    }

    fn run_with(&mut self, stmts: &Vec<Statement>, bindings: Option<Vec<EvalVariable>>) -> (res:
        Result<Value, EvalError>)
        requires
            old(self).wf(),
        ensures
            final(self).wf(),
            final(self).same_frame(old(self)),
            value_outcome(final(self)@, res) == eval_outcome(
                old(self)@,
                old(self).depth(),
                old(self).limit(),
                statements_view(stmts@),
                bindings_view(bindings),
            ),
        decreases old(self).limit - old(self).depth, 1nat, stmts, 1nat,
    {
        match bindings {
            Some(mut b) => {
                let ghost added = variables_view(b@);
                let ghost held = variables_view(self.locals@);
                self.locals.append(&mut b);
                assert(variables_view(self.locals@) =~= held + added);
            },
            None => {},
        }
        self.walk(stmts)
    }

    #[verifier::loop_isolation(false)]
    fn walk(&mut self, stmts: &Vec<Statement>) -> (res: Result<Value, EvalError>)
        requires
            old(self).wf(),
        ensures
            final(self).wf(),
            final(self).same_frame(old(self)),
            value_outcome(final(self)@, res) == run_outcome(
                old(self)@,
                old(self).depth(),
                old(self).limit(),
                statements_view(stmts@),
            ),
        decreases old(self).limit - old(self).depth, 1nat, stmts, 0nat,
    {
        let ghost all = statements_view(stmts@);
        let ghost d = self.depth();
        let ghost l = self.limit();
        let mut i: usize = 0;
        assert(all.skip(0) =~= all);
        while i < stmts.len()
            invariant
                i <= stmts.len(),
                self.wf(),
                self.same_frame(old(self)),
                run_outcome(old(self)@, d, l, all) == run_outcome(self@, d, l, all.skip(i as int)),
            decreases stmts.len() - i,
        {
            let ghost rest = all.skip(i as int);
            assert(rest[0] == stmts[i as int]@);
            assert(rest.skip(1) =~= all.skip(i + 1));
            match self.exec_stmt(&stmts[i]) {
                Err(e) => {
                    self.locals.clear();
                    assert(self@.locals =~= Seq::empty());
                    return Err(e);
                },
                Ok(Some(v)) => {
                    self.locals.clear();
                    assert(self@.locals =~= Seq::empty());
                    return Ok(v);
                },
                Ok(None) => {},
            }
            i += 1;
        }
        assert(all.skip(i as int) =~= Seq::empty());
        self.locals.clear();
        assert(self@.locals =~= Seq::empty());
        Ok(Value::Void)
    }

    fn assign_value(&mut self, name: &String, e: &Expr) -> (res: Result<(), EvalError>)
        requires
            old(self).wf(),
        ensures
            final(self).wf(),
            final(self).same_frame(old(self)),
            unit_outcome(final(self)@, res) == assign_outcome(
                old(self)@,
                old(self).depth(),
                old(self).limit(),
                name@,
                e@,
            ),
        decreases old(self).limit - old(self).depth, 0nat, e, 1nat,
    {
        let v = match self.exec_expr(e) {
            Err(err) => {
                return Err(err);
            },
            Ok(v) => v,
        };
        let ghost s = self@;
        match find_var(&self.vars, name) {
            Some(i) => {
                proof {
                    lemma_first_index(var_names(s.vars), name@, i as int);
                }
                self.vars.set(i, EvalVariable { name: name.clone(), val: v });
                proof {
                    assert(self@.vars =~= assign(s.vars, name@, v@));
                    assert(var_names(self@.vars) =~= var_names(s.vars));
                }
                Ok(())
            },
            None => match find_var(&self.locals, name) {
                Some(i) => {
                    proof {
                        lemma_first_index(var_names(s.locals), name@, i as int);
                    }
                    self.locals.set(i, EvalVariable { name: name.clone(), val: v });
                    proof {
                        assert(self@.locals =~= assign(s.locals, name@, v@));
                    }
                    Ok(())
                },
                None => Err(EvalError::UndefinedVariable),
            },
        }
    }

    fn exec_stmt(&mut self, stmt: &Statement) -> (res: Result<Option<Value>, EvalError>)
        requires
            old(self).wf(),
        ensures
            final(self).wf(),
            final(self).same_frame(old(self)),
            step_outcome(final(self)@, res) == stmt_outcome(
                old(self)@,
                old(self).depth(),
                old(self).limit(),
                stmt@,
            ),
        decreases old(self).limit - old(self).depth, 1nat, stmt, 2nat,
    {
        proof {
            lemma_statement_view(*stmt);
        }
        match stmt {
            Statement::FuncDef(nfunc, arg_names) => {
                if !self.global {
                    return Err(EvalError::InvalidContext);
                }
                match find_fn(&self.fns, &nfunc.name) {
                    Some(i) => {
                        proof {
                            lemma_first_index(fn_names(self@.fns), nfunc.name@, i as int);
                        }
                        return Err(EvalError::DuplicateDefinition);
                    },
                    None => {},
                }
                let ghost s = self@;
                let f = EvalFunction {
                    name: nfunc.name.clone(),
                    body: clone_statements(&nfunc.body.body),
                    args: clone_names(arg_names),
                };
                self.fns.push(f);
                proof {
                    assert(self@.fns =~= s.fns.push(f@));
                    lemma_push_fresh(fn_names(s.fns), nfunc.name@);
                    assert(fn_names(self@.fns) =~= fn_names(s.fns).push(nfunc.name@));
                }
                Ok(None)
            },
            Statement::VarDef(nname, nexpr) => {
                if self.lookup(nname).is_some() {
                    return Err(EvalError::DuplicateDefinition);
                }
                let v = match self.exec_expr(nexpr) {
                    Err(err) => {
                        return Err(err);
                    },
                    Ok(v) => v,
                };
                if self.lookup(nname).is_some() {
                    return Err(EvalError::DuplicateDefinition);
                }
                let ghost s = self@;
                let var = EvalVariable { name: nname.clone(), val: v };
                if !self.global {
                    self.locals.push(var);
                    assert(self@.locals =~= s.locals.push(var@));
                } else {
                    self.vars.push(var);
                    proof {
                        assert(self@.vars =~= s.vars.push(var@));
                        lemma_push_fresh(var_names(s.vars), nname@);
                        assert(var_names(self@.vars) =~= var_names(s.vars).push(nname@));
                    }
                }
                Ok(None)
            },
            Statement::Return(expr) => {
                if self.depth == 0 {
                    return Err(EvalError::InvalidContext);
                }
                match self.exec_expr(expr) {
                    Err(err) => Err(err),
                    Ok(v) => Ok(Some(v)),
                }
            },
            Statement::FuncCall(name, args) => {
                match self.call(name, args) {
                    Err(err) => Err(err),
                    Ok(_) => Ok(None),
                }
            },
            Statement::BlockStmt(block) => {
                let outer = self.global;
                self.global = false;
                let res = self.run_with(&block.body, None);
                self.global = outer;
                match res {
                    Err(err) => Err(err),
                    Ok(_) => Ok(None),
                }
            },
            Statement::VarAssign(nname, nexpr) => {
                match self.assign_value(nname, nexpr) {
                    Err(err) => Err(err),
                    Ok(_) => Ok(None),
                }
            },
        }
    }
}

} // verus!
