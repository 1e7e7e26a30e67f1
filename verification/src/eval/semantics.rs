//! What evaluation means: the evaluator's state as plain sequences, and the
//! outcome of evaluating each construct as a function of that state.
//!
//! There are two levels of scope: the global table, and one flat local
//! set. A name is looked up in the global table first, then in the local
//! set. The local set is emptied whenever the evaluation of a statement
//! sequence ends, so a function that calls another, or runs a block, has
//! lost its parameters afterwards. A scope flag says whether definitions
//! go to the global table; a call leaves it global, whatever it was.
//!
//! Each function below takes the number of calls that are running,
//! `depth`, and the `limit` that they may not exceed. Evaluation always
//! ends: a program that would recurse without end fails with
//! `RecursionLimit`.

use vstd::prelude::*;
use crate::parser::expr::{ExprView, ExprValueView};
use crate::parser::StatementView;

verus! {

/// Why an evaluation stopped.
#[derive(Debug, Clone, Copy, PartialEq, Eq, Structural)]
pub enum EvalError {
    /// A variable or a function of that name is defined already.
    DuplicateDefinition,
    /// No variable of that name is visible.
    UndefinedVariable,
    /// No function of that name is defined.
    UndefinedFunction,
    /// A call hands over more or fewer arguments than the function takes.
    Arity,
    /// A `return` outside a function call, or a function definition outside
    /// the global scope.
    InvalidContext,
    /// A division by zero. No expression that the evaluator evaluates
    /// divides: the kind is kept for binary operations.
    DivideByZero,
    /// An expression that the evaluator does not evaluate: a binary
    /// operation.
    UnsupportedExpression,
    /// A call would nest deeper than the evaluator's limit.
    RecursionLimit,
}

/// What a value is: a number, by the text of its literal, or no value.
pub enum ValueView {
    Num(Seq<char>),
    Void,
}

/// A name bound to a value.
pub struct VariableView {
    pub name: Seq<char>,
    pub val: ValueView,
}

/// A function: its name, its body and the names of its parameters.
pub struct EvalFunctionView {
    pub name: Seq<char>,
    pub body: Seq<StatementView>,
    pub args: Seq<Seq<char>>,
}

/// The evaluator's state: the global table, the local set, the function
/// table and the scope flag.
pub struct EvalState {
    pub vars: Seq<VariableView>,
    pub locals: Seq<VariableView>,
    pub fns: Seq<EvalFunctionView>,
    pub global: bool,
}

/// The state an evaluation ended in, and its value or the fault.
pub struct Outcome<T> {
    pub state: EvalState,
    pub result: Result<T, EvalError>,
}

/// No name is defined twice in the global table, and none in the function
/// table.
pub open spec fn state_wf(st: EvalState) -> bool {
    &&& var_names(st.vars).no_duplicates()
    &&& fn_names(st.fns).no_duplicates()
}

/// An evaluation that ended in `state` with `value`.
pub open spec fn done<T>(state: EvalState, value: T) -> Outcome<T> {
    Outcome { state, result: Ok(value) }
}

/// An evaluation that stopped in `state` with `error`.
pub open spec fn fail<T>(state: EvalState, error: EvalError) -> Outcome<T> {
    Outcome { state, result: Err(error) }
}

/// The names of the variables, in order.
pub open spec fn var_names(vars: Seq<VariableView>) -> Seq<Seq<char>> {
    Seq::new(vars.len(), |i: int| vars[i].name)
}

/// The names of the functions, in order.
pub open spec fn fn_names(fns: Seq<EvalFunctionView>) -> Seq<Seq<char>> {
    Seq::new(fns.len(), |i: int| fns[i].name)
}

/// `names[i]` is the first occurrence of `name`.
pub open spec fn is_first(names: Seq<Seq<char>>, name: Seq<char>, i: int) -> bool {
    &&& 0 <= i < names.len()
    &&& names[i] == name
    &&& forall|j: int| 0 <= j < i ==> names[j] != name
}

/// Where `name` first occurs in `names`, if it occurs.
pub open spec fn first_index(names: Seq<Seq<char>>, name: Seq<char>) -> int {
    choose|i: int| is_first(names, name, i)
}

/// The value of the first binding of `name` in `vars`.
pub open spec fn value_in(vars: Seq<VariableView>, name: Seq<char>) -> Option<ValueView> {
    if var_names(vars).contains(name) {
        Some(vars[first_index(var_names(vars), name)].val)
    } else {
        None
    }
}

/// The value that `name` stands for: the global table is searched first,
/// then the local set.
pub open spec fn visible(st: EvalState, name: Seq<char>) -> Option<ValueView> {
    match value_in(st.vars, name) {
        Some(v) => Some(v),
        None => value_in(st.locals, name),
    }
}

/// `vars` with the first binding of `name` set to `val`.
pub open spec fn assign(vars: Seq<VariableView>, name: Seq<char>, val: ValueView) -> Seq<
    VariableView,
> {
    vars.update(first_index(var_names(vars), name), VariableView { name, val })
}

/// The first function of that name.
pub open spec fn function_named(fns: Seq<EvalFunctionView>, name: Seq<char>) -> Option<
    EvalFunctionView,
> {
    if fn_names(fns).contains(name) {
        Some(fns[first_index(fn_names(fns), name)])
    } else {
        None
    }
}

/// Parameter names bound to argument values, position by position.
pub open spec fn bind(params: Seq<Seq<char>>, vals: Seq<ValueView>) -> Seq<VariableView> {
    Seq::new(params.len(), |i: int| VariableView { name: params[i], val: vals[i] })
}

/// The state with an empty local set.
pub open spec fn without_locals(st: EvalState) -> EvalState {
    EvalState { locals: Seq::empty(), ..st }
}

/// The state with its scope flag set to `global`.
pub open spec fn with_scope(st: EvalState, global: bool) -> EvalState {
    EvalState { global, ..st }
}

/// `o` with `first` put in front of its values.
pub open spec fn prepend(first: Seq<ValueView>, o: Outcome<Seq<ValueView>>) -> Outcome<
    Seq<ValueView>,
> {
    match o.result {
        Ok(vals) => done(o.state, first + vals),
        Err(e) => fail(o.state, e),
    }
}

/// Evaluating an expression.
///
/// `depth` counts the function calls that are running; a call that would
/// make it exceed `limit` fails.
pub open spec fn expr_outcome(st: EvalState, depth: nat, limit: nat, e: ExprView) -> Outcome<
    ValueView,
>
    decreases limit - depth, 0nat, e, 0nat,
{
    match e {
        ExprView::Lit(ExprValueView::Num(text)) => done(st, ValueView::Num(text)),
        ExprView::Ident(name) => match visible(st, name) {
            Some(v) => done(st, v),
            None => fail(st, EvalError::UndefinedVariable),
        },
        ExprView::Fn(name, args) => call_outcome(st, depth, limit, name, args),
        ExprView::BinOp(_, _, _) => fail(st, EvalError::UnsupportedExpression),
    }
}

/// Evaluating the arguments of a call, from left to right. The first fault
/// ends it.
pub open spec fn args_outcome(
    st: EvalState,
    depth: nat,
    limit: nat,
    args: Seq<ExprView>,
) -> Outcome<Seq<ValueView>>
    decreases limit - depth, 0nat, args, 0nat,
{
    if args.len() == 0 {
        done(st, Seq::empty())
    } else {
        let first = expr_outcome(st, depth, limit, args[0]);
        match first.result {
            Err(e) => fail(first.state, e),
            Ok(v) => prepend(seq![v], args_outcome(first.state, depth, limit, args.skip(1))),
        }
    }
}

/// Calling the function `name`.
///
/// The function must be defined and take as many parameters as there are
/// arguments; both are settled before anything is evaluated. The arguments
/// are evaluated in the caller's state. The body then runs one call deeper,
/// in non-global scope, with the parameters as its local set: it sees no
/// local of its caller. Whatever the body's outcome, the scope flag is
/// global afterwards.
pub open spec fn call_outcome(
    st: EvalState,
    depth: nat,
    limit: nat,
    name: Seq<char>,
    args: Seq<ExprView>,
) -> Outcome<ValueView>
    decreases limit - depth, 0nat, args, 1nat,
{
    match function_named(st.fns, name) {
        None => fail(st, EvalError::UndefinedFunction),
        Some(f) => if f.args.len() != args.len() {
            fail(st, EvalError::Arity)
        } else {
            let a = args_outcome(st, depth, limit, args);
            match a.result {
                Err(e) => fail(a.state, e),
                Ok(vals) => if depth >= limit {
                    fail(a.state, EvalError::RecursionLimit)
                } else {
                    let body = eval_outcome(
                        with_scope(without_locals(a.state), false),
                        depth + 1,
                        limit,
                        f.body,
                        Some(bind(f.args, vals)),
                    );
                    Outcome { state: with_scope(body.state, true), result: body.result }
                },
            }
        },
    }
}

/// Evaluating a statement sequence, with the bindings it starts with added
/// to the local set.
pub open spec fn eval_outcome(
    st: EvalState,
    depth: nat,
    limit: nat,
    stmts: Seq<StatementView>,
    bindings: Option<Seq<VariableView>>,
) -> Outcome<ValueView>
    decreases limit - depth, 1nat, stmts, 1nat,
{
    match bindings {
        Some(b) => run_outcome(EvalState { locals: st.locals + b, ..st }, depth, limit, stmts),
        None => run_outcome(st, depth, limit, stmts),
    }
}

/// Walking a statement sequence. The first `return` gives the value and
/// skips the rest; without one the value is `Void`. However the walk ends,
/// the local set is empty afterwards.
pub open spec fn run_outcome(
    st: EvalState,
    depth: nat,
    limit: nat,
    stmts: Seq<StatementView>,
) -> Outcome<ValueView>
    decreases limit - depth, 1nat, stmts, 0nat,
{
    if stmts.len() == 0 {
        done(without_locals(st), ValueView::Void)
    } else {
        let first = stmt_outcome(st, depth, limit, stmts[0]);
        match first.result {
            Err(e) => fail(without_locals(first.state), e),
            Ok(Some(v)) => done(without_locals(first.state), v),
            Ok(None) => run_outcome(first.state, depth, limit, stmts.skip(1)),
        }
    }
}

/// Assigning the value of `e` to the first binding of `name`, in the global
/// table if it has one, else in the local set.
pub open spec fn assign_outcome(
    st: EvalState,
    depth: nat,
    limit: nat,
    name: Seq<char>,
    e: ExprView,
) -> Outcome<()>
    decreases limit - depth, 0nat, e, 1nat,
{
    let value = expr_outcome(st, depth, limit, e);
    match value.result {
        Err(err) => fail(value.state, err),
        Ok(v) => {
            let s = value.state;
            if var_names(s.vars).contains(name) {
                done(EvalState { vars: assign(s.vars, name, v), ..s }, ())
            } else if var_names(s.locals).contains(name) {
                done(EvalState { locals: assign(s.locals, name, v), ..s }, ())
            } else {
                fail(s, EvalError::UndefinedVariable)
            }
        },
    }
}

/// Evaluating one statement. The value is that of a `return`, if the
/// statement is one.
///
/// - A function definition is legal in global scope only, and its name must
///   be new.
/// - A variable definition fails if its name is visible: before the
///   initializer is evaluated, and again after it, since a call in the
///   initializer may have defined the name. In global scope the binding
///   goes to the global table, else to the local set.
/// - `return` is legal only while a function call is running.
/// - A call statement drops the value of the call.
/// - A block runs in non-global scope with the local set as it is; after
///   it the scope is what it was, and the value of the block is dropped.
pub open spec fn stmt_outcome(st: EvalState, depth: nat, limit: nat, stmt: StatementView) -> Outcome<
    Option<ValueView>,
>
    decreases limit - depth, 1nat, stmt, 2nat,
{
    match stmt {
        StatementView::FuncDef(name, params, body) => if !st.global {
            fail(st, EvalError::InvalidContext)
        } else if fn_names(st.fns).contains(name) {
            fail(st, EvalError::DuplicateDefinition)
        } else {
            done(
                EvalState { fns: st.fns.push(EvalFunctionView { name, body, args: params }), ..st },
                None,
            )
        },
        StatementView::VarDef(name, e) => if visible(st, name) is Some {
            fail(st, EvalError::DuplicateDefinition)
        } else {
            let value = expr_outcome(st, depth, limit, e);
            match value.result {
                Err(err) => fail(value.state, err),
                Ok(v) => {
                    let s = value.state;
                    let var = VariableView { name, val: v };
                    if visible(s, name) is Some {
                        fail(s, EvalError::DuplicateDefinition)
                    } else if s.global {
                        done(EvalState { vars: s.vars.push(var), ..s }, None)
                    } else {
                        done(EvalState { locals: s.locals.push(var), ..s }, None)
                    }
                },
            }
        },
        StatementView::VarAssign(name, e) => {
            let o = assign_outcome(st, depth, limit, name, e);
            match o.result {
                Err(err) => fail(o.state, err),
                Ok(_) => done(o.state, None),
            }
        },
        StatementView::Return(e) => if depth == 0 {
            fail(st, EvalError::InvalidContext)
        } else {
            let value = expr_outcome(st, depth, limit, e);
            match value.result {
                Err(err) => fail(value.state, err),
                Ok(v) => done(value.state, Some(v)),
            }
        },
        StatementView::FuncCall(name, args) => {
            let o = call_outcome(st, depth, limit, name, args);
            match o.result {
                Err(err) => fail(o.state, err),
                Ok(_) => done(o.state, None),
            }
        },
        StatementView::BlockStmt(body) => {
            let o = eval_outcome(with_scope(st, false), depth, limit, body, None);
            match o.result {
                Err(err) => fail(with_scope(o.state, st.global), err),
                Ok(_) => done(with_scope(o.state, st.global), None),
            }
        },
    }
}

/// The first occurrence of a name is where `first_index` finds it.
pub proof fn lemma_first_index(names: Seq<Seq<char>>, name: Seq<char>, i: int)
    requires
        is_first(names, name, i),
    ensures
        names.contains(name),
        first_index(names, name) == i,
{
    let k = first_index(names, name);
    assert(is_first(names, name, k));
    if k < i {
        assert(names[k] != name);
    }
    if i < k {
        assert(names[i] != name);
    }
}

/// A name that occurs has a first occurrence.
pub proof fn lemma_first_exists(names: Seq<Seq<char>>, name: Seq<char>)
    requires
        names.contains(name),
    ensures
        is_first(names, name, first_index(names, name)),
{
    let k = choose|k: int| 0 <= k < names.len() && names[k] == name;
    lemma_first_below(names, name, k);
}

proof fn lemma_first_below(names: Seq<Seq<char>>, name: Seq<char>, k: int)
    requires
        0 <= k < names.len(),
        names[k] == name,
    ensures
        exists|i: int| is_first(names, name, i),
    decreases k,
{
    if exists|j: int| 0 <= j < k && names[j] == name {
        let j = choose|j: int| 0 <= j < k && names[j] == name;
        lemma_first_below(names, name, j);
    } else {
        assert(is_first(names, name, k));
    }
}

/// Adding a name that does not occur keeps the names distinct.
pub proof fn lemma_push_fresh(names: Seq<Seq<char>>, name: Seq<char>)
    requires
        names.no_duplicates(),
        !names.contains(name),
    ensures
        names.push(name).no_duplicates(),
{
    let pushed = names.push(name);
    assert forall|i: int, j: int|
        0 <= i < pushed.len() && 0 <= j < pushed.len() && i != j implies pushed[i] != pushed[j] by {
        if i < names.len() {
            assert(names.contains(names[i]));
        }
        if j < names.len() {
            assert(names.contains(names[j]));
        }
    }
}

/// Assigning to a name that is bound changes no name.
pub proof fn lemma_assign_keeps_names(vars: Seq<VariableView>, name: Seq<char>, val: ValueView)
    requires
        var_names(vars).contains(name),
    ensures
        var_names(assign(vars, name, val)) == var_names(vars),
{
    lemma_first_exists(var_names(vars), name);
    assert(var_names(assign(vars, name, val)) =~= var_names(vars));
}

} // verus!
