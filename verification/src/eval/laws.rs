//! What holds of every evaluation.

use vstd::prelude::*;
use crate::parser::expr::ExprView;
use crate::parser::StatementView;
use crate::eval::semantics::{
    EvalError, EvalState, EvalFunctionView, ValueView, VariableView, state_wf, var_names, fn_names,
    visible, function_named, bind, with_scope, without_locals, expr_outcome, args_outcome, call_outcome,
    eval_outcome, run_outcome, assign_outcome, stmt_outcome, fail, lemma_push_fresh,
    lemma_assign_keeps_names,
};

verus! {

/// Once a variable is defined, defining one of the same name in the state
/// that resulted fails with `DuplicateDefinition` and changes nothing,
/// whatever the two initializers are.
pub proof fn law_variable_defined_once(
    st: EvalState,
    depth: nat,
    limit: nat,
    name: Seq<char>,
    first: ExprView,
    second: ExprView,
)
    requires
        stmt_outcome(st, depth, limit, StatementView::VarDef(name, first)).result is Ok,
    ensures
        ({
            let defined = stmt_outcome(st, depth, limit, StatementView::VarDef(name, first)).state;
            stmt_outcome(defined, depth, limit, StatementView::VarDef(name, second)) == fail::<
                Option<ValueView>,
            >(defined, EvalError::DuplicateDefinition)
        }),
{
    let value = expr_outcome(st, depth, limit, first);
    let s = value.state;
    let var = VariableView { name, val: value.result->Ok_0 };
    let defined = stmt_outcome(st, depth, limit, StatementView::VarDef(name, first)).state;
    if s.global {
        assert(defined.vars == s.vars.push(var));
        assert(var_names(defined.vars)[s.vars.len() as int] == name);
    } else {
        assert(defined.locals == s.locals.push(var));
        assert(var_names(defined.locals)[s.locals.len() as int] == name);
    }
}

/// A name that is visible cannot be defined: the definition fails with
/// `DuplicateDefinition` before its initializer is evaluated.
pub proof fn law_visible_not_redefined(
    st: EvalState,
    depth: nat,
    limit: nat,
    name: Seq<char>,
    e: ExprView,
)
    requires
        visible(st, name) is Some,
    ensures
        stmt_outcome(st, depth, limit, StatementView::VarDef(name, e)) == fail::<Option<ValueView>>(
            st,
            EvalError::DuplicateDefinition,
        ),
{
}

/// Once a function is defined, defining one of the same name in the state
/// that resulted fails with `DuplicateDefinition` and changes nothing,
/// whatever its parameters and body are.
pub proof fn law_function_defined_once(
    st: EvalState,
    depth: nat,
    limit: nat,
    name: Seq<char>,
    params: Seq<Seq<char>>,
    body: Seq<StatementView>,
    other_params: Seq<Seq<char>>,
    other_body: Seq<StatementView>,
)
    requires
        stmt_outcome(st, depth, limit, StatementView::FuncDef(name, params, body)).result is Ok,
    ensures
        ({
            let defined = stmt_outcome(
                st,
                depth,
                limit,
                StatementView::FuncDef(name, params, body),
            ).state;
            stmt_outcome(
                defined,
                depth,
                limit,
                StatementView::FuncDef(name, other_params, other_body),
            ) == fail::<Option<ValueView>>(defined, EvalError::DuplicateDefinition)
        }),
{
    let defined = stmt_outcome(st, depth, limit, StatementView::FuncDef(name, params, body)).state;
    assert(defined.fns == st.fns.push(EvalFunctionView { name, body, args: params }));
    assert(fn_names(defined.fns)[st.fns.len() as int] == name);
}

/// A call of a name that no function has fails with `UndefinedFunction`,
/// and nothing was evaluated: the state is the one it started in.
pub proof fn law_call_of_undefined_function(
    st: EvalState,
    depth: nat,
    limit: nat,
    name: Seq<char>,
    args: Seq<ExprView>,
)
    requires
        !fn_names(st.fns).contains(name),
    ensures
        call_outcome(st, depth, limit, name, args) == fail::<ValueView>(
            st,
            EvalError::UndefinedFunction,
        ),
{
}

/// A call with more or fewer arguments than the function has parameters
/// fails with `Arity`, and nothing was evaluated: the state is the one it
/// started in.
pub proof fn law_call_with_wrong_arity(
    st: EvalState,
    depth: nat,
    limit: nat,
    name: Seq<char>,
    args: Seq<ExprView>,
)
    requires
        function_named(st.fns, name) matches Some(f) && f.args.len() != args.len(),
    ensures
        call_outcome(st, depth, limit, name, args) == fail::<ValueView>(st, EvalError::Arity),
{
}

/// An identifier that neither the global table nor the local set binds
/// evaluates to `UndefinedVariable`.
pub proof fn law_undefined_identifier(st: EvalState, depth: nat, limit: nat, name: Seq<char>)
    requires
        !var_names(st.vars).contains(name),
        !var_names(st.locals).contains(name),
    ensures
        expr_outcome(st, depth, limit, ExprView::Ident(name)) == fail::<ValueView>(
            st,
            EvalError::UndefinedVariable,
        ),
{
}

/// However a statement sequence ends, the local set is empty afterwards.
pub proof fn law_locals_cleared(
    st: EvalState,
    depth: nat,
    limit: nat,
    stmts: Seq<StatementView>,
    bindings: Option<Seq<VariableView>>,
)
    ensures
        eval_outcome(st, depth, limit, stmts, bindings).state.locals == Seq::<VariableView>::empty(),
{
    match bindings {
        Some(b) => lemma_walk_clears(EvalState { locals: st.locals + b, ..st }, depth, limit, stmts),
        None => lemma_walk_clears(st, depth, limit, stmts),
    }
}

proof fn lemma_walk_clears(st: EvalState, depth: nat, limit: nat, stmts: Seq<StatementView>)
    ensures
        run_outcome(st, depth, limit, stmts).state.locals == Seq::<VariableView>::empty(),
    decreases stmts.len(),
{
    if stmts.len() > 0 {
        let first = stmt_outcome(st, depth, limit, stmts[0]);
        if first.result == Ok::<Option<ValueView>, EvalError>(None) {
            lemma_walk_clears(first.state, depth, limit, stmts.skip(1));
        }
    }
}

/// What an evaluation keeps of the state it started in: the names stay
/// distinct if they were, and every function stays where it is in the
/// function table.
pub open spec fn kept(before: EvalState, after: EvalState) -> bool {
    &&& state_wf(before) ==> state_wf(after)
    &&& before.fns.len() <= after.fns.len()
    &&& forall|i: int| 0 <= i < before.fns.len() ==> after.fns[i] == #[trigger] before.fns[i]
}

/// Evaluating an expression keeps the names distinct and removes or
/// changes no function.
pub proof fn law_expr_keeps_definitions(st: EvalState, depth: nat, limit: nat, e: ExprView)
    ensures
        kept(st, expr_outcome(st, depth, limit, e).state),
    decreases limit - depth, 0nat, e, 0nat,
{
    match e {
        ExprView::Fn(name, args) => {
            law_call_keeps_definitions(st, depth, limit, name, args);
        },
        _ => {},
    }
}

proof fn lemma_args_keep_definitions(st: EvalState, depth: nat, limit: nat, args: Seq<ExprView>)
    ensures
        kept(st, args_outcome(st, depth, limit, args).state),
    decreases limit - depth, 0nat, args, 0nat,
{
    if args.len() > 0 {
        law_expr_keeps_definitions(st, depth, limit, args[0]);
        let first = expr_outcome(st, depth, limit, args[0]);
        if first.result is Ok {
            lemma_args_keep_definitions(first.state, depth, limit, args.skip(1));
        }
    }
}

/// A call keeps the names distinct and removes or changes no function.
pub proof fn law_call_keeps_definitions(
    st: EvalState,
    depth: nat,
    limit: nat,
    name: Seq<char>,
    args: Seq<ExprView>,
)
    ensures
        kept(st, call_outcome(st, depth, limit, name, args).state),
    decreases limit - depth, 0nat, args, 1nat,
{
    match function_named(st.fns, name) {
        None => {},
        Some(f) => {
            if f.args.len() == args.len() {
                lemma_args_keep_definitions(st, depth, limit, args);
                let a = args_outcome(st, depth, limit, args);
                if a.result is Ok && depth < limit {
                    law_eval_keeps_definitions(
                        with_scope(without_locals(a.state), false),
                        depth + 1,
                        limit,
                        f.body,
                        Some(bind(f.args, a.result->Ok_0)),
                    );
                }
            }
        },
    }
}

/// Evaluating a statement sequence keeps the names distinct and removes or
/// changes no function.
pub proof fn law_eval_keeps_definitions(
    st: EvalState,
    depth: nat,
    limit: nat,
    stmts: Seq<StatementView>,
    bindings: Option<Seq<VariableView>>,
)
    ensures
        kept(st, eval_outcome(st, depth, limit, stmts, bindings).state),
    decreases limit - depth, 1nat, stmts, 1nat,
{
    match bindings {
        Some(b) => lemma_walk_keeps_definitions(
            EvalState { locals: st.locals + b, ..st },
            depth,
            limit,
            stmts,
        ),
        None => lemma_walk_keeps_definitions(st, depth, limit, stmts),
    }
}

proof fn lemma_walk_keeps_definitions(
    st: EvalState,
    depth: nat,
    limit: nat,
    stmts: Seq<StatementView>,
)
    ensures
        kept(st, run_outcome(st, depth, limit, stmts).state),
    decreases limit - depth, 1nat, stmts, 0nat,
{
    if stmts.len() > 0 {
        lemma_stmt_keeps_definitions(st, depth, limit, stmts[0]);
        let first = stmt_outcome(st, depth, limit, stmts[0]);
        if first.result == Ok::<Option<ValueView>, EvalError>(None) {
            lemma_walk_keeps_definitions(first.state, depth, limit, stmts.skip(1));
        }
    }
}

proof fn lemma_assign_keeps_definitions(
    st: EvalState,
    depth: nat,
    limit: nat,
    name: Seq<char>,
    e: ExprView,
)
    ensures
        kept(st, assign_outcome(st, depth, limit, name, e).state),
    decreases limit - depth, 0nat, e, 1nat,
{
    law_expr_keeps_definitions(st, depth, limit, e);
    let value = expr_outcome(st, depth, limit, e);
    if value.result is Ok && var_names(value.state.vars).contains(name) {
        lemma_assign_keeps_names(value.state.vars, name, value.result->Ok_0);
    }
}

proof fn lemma_stmt_keeps_definitions(st: EvalState, depth: nat, limit: nat, stmt: StatementView)
    ensures
        kept(st, stmt_outcome(st, depth, limit, stmt).state),
    decreases limit - depth, 1nat, stmt, 2nat,
{
    match stmt {
        StatementView::FuncDef(name, params, body) => {
            if st.global && !fn_names(st.fns).contains(name) {
                let f = EvalFunctionView { name, body, args: params };
                if state_wf(st) {
                    lemma_push_fresh(fn_names(st.fns), name);
                    assert(fn_names(st.fns.push(f)) =~= fn_names(st.fns).push(name));
                }
            }
        },
        StatementView::VarDef(name, e) => {
            if visible(st, name) is None {
                law_expr_keeps_definitions(st, depth, limit, e);
                let value = expr_outcome(st, depth, limit, e);
                let s = value.state;
                if value.result is Ok && visible(s, name) is None && s.global && state_wf(s) {
                    let var = VariableView { name, val: value.result->Ok_0 };
                    lemma_push_fresh(var_names(s.vars), name);
                    assert(var_names(s.vars.push(var)) =~= var_names(s.vars).push(name));
                }
            }
        },
        StatementView::VarAssign(name, e) => {
            lemma_assign_keeps_definitions(st, depth, limit, name, e);
        },
        StatementView::Return(e) => {
            if depth != 0 {
                law_expr_keeps_definitions(st, depth, limit, e);
            }
        },
        StatementView::FuncCall(name, args) => {
            law_call_keeps_definitions(st, depth, limit, name, args);
        },
        StatementView::BlockStmt(body) => {
            law_eval_keeps_definitions(with_scope(st, false), depth, limit, body, None);
        },
    }
}

} // verus!
