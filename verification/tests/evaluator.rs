use q9::eval::{EvalError, EvalVariable, Q9Eval, Value, DEFAULT_CALL_LIMIT};
use q9::number::Number;
use q9::parser::expr::{BinOp, Expr, ExprValue};
use q9::parser::{Block, Function, Parser, Program, Statement};

fn num(text: &str) -> Expr {
    Expr::Lit(ExprValue::Num(Number::parse(text).unwrap()))
}

fn ident(name: &str) -> Expr {
    Expr::Ident(name.to_string())
}

fn number_value(text: &str) -> Value {
    Value::Num(Number::parse(text).unwrap())
}

fn float_of(v: &Value) -> f64 {
    match v {
        Value::Num(n) => n.as_str().parse::<f64>().unwrap(),
        Value::Void => panic!("void value"),
    }
}

fn program(source: &str) -> Program {
    Parser::new(source).parse().unwrap()
}

/// An evaluator that has run `source`.
fn evaluator_after(source: &str) -> Q9Eval {
    let mut eval = Q9Eval::new(program(source));
    eval.run().unwrap();
    eval
}

fn run_source(source: &str) -> (Q9Eval, Result<Value, EvalError>) {
    let mut eval = Q9Eval::new(program(source));
    let res = eval.run();
    (eval, res)
}

#[test]
fn let_installs_a_global_binding() {
    let prog = program("let x = 2");
    assert_eq!(prog.content, vec![Statement::VarDef("x".to_string(), num("2"))]);
    let mut eval = Q9Eval::new(prog);
    let res = eval.run();
    assert_eq!(res, Ok(Value::Void));
    assert_eq!(float_of(&eval.get_val_from_var("x").unwrap()), 2.0);
}

#[test]
fn global_binding_outlives_the_run() {
    let mut eval = evaluator_after("let x = 2");
    // The local set is empty after a run, so the binding is a global one.
    assert_eq!(eval.eval(Vec::new(), None), Ok(Value::Void));
    assert_eq!(eval.get_val_from_var("x"), Some(number_value("2")));
}

#[test]
fn call_binds_arguments_by_position_and_returns_early() {
    let mut eval = evaluator_after("fn add(a, b) { return a }");
    let res = eval.call_fn("add", vec![num("3"), num("4")]).unwrap();
    assert_eq!(float_of(&res), 3.0);
}

#[test]
fn call_returns_the_second_parameter_when_asked() {
    let mut eval = evaluator_after("fn second(a, b) { return b }");
    let res = eval.call_fn("second", vec![num("3"), num("4")]).unwrap();
    assert_eq!(float_of(&res), 4.0);
}

#[test]
fn call_in_an_initializer_gives_its_value() {
    let eval = evaluator_after("fn add(a, b) { return a } let r = add(3, 4)");
    assert_eq!(float_of(&eval.get_val_from_var("r").unwrap()), 3.0);
}

#[test]
fn function_without_return_gives_void() {
    let mut eval = evaluator_after("fn f() { let y = 1 }");
    assert_eq!(eval.call_fn("f", Vec::new()), Ok(Value::Void));
}

#[test]
fn return_skips_the_statements_after_it() {
    // `missing` is not defined: the assignment would fail if it ran.
    let mut eval = evaluator_after("fn f() { return 1 missing = 5 }");
    assert_eq!(eval.call_fn("f", Vec::new()), Ok(number_value("1")));
}

#[test]
fn second_definition_of_a_variable_fails_and_changes_nothing() {
    let (eval, res) = run_source("let x = 2 let x = 3");
    assert_eq!(res, Err(EvalError::DuplicateDefinition));
    assert_eq!(float_of(&eval.get_val_from_var("x").unwrap()), 2.0);
}

#[test]
fn second_definition_fails_whatever_the_values_are() {
    for (first, second) in [("1", "1"), ("1", "2"), ("0.5", "10"), ("7", "y")] {
        let source = format!("let x = {first} let x = {second}");
        let (eval, res) = run_source(&source);
        assert_eq!(res, Err(EvalError::DuplicateDefinition));
        assert_eq!(eval.get_val_from_var("x"), Some(number_value(first)));
    }
}

#[test]
fn local_definition_of_a_global_name_fails() {
    let mut eval = evaluator_after("let x = 1 fn f() { let x = 2 }");
    assert_eq!(eval.call_fn("f", Vec::new()), Err(EvalError::DuplicateDefinition));
    assert_eq!(eval.get_val_from_var("x"), Some(number_value("1")));
}

#[test]
fn second_definition_of_a_local_fails() {
    let mut eval = evaluator_after("fn f() { let y = 1 let y = 2 }");
    assert_eq!(eval.call_fn("f", Vec::new()), Err(EvalError::DuplicateDefinition));
}

#[test]
fn second_definition_of_a_function_fails() {
    let (mut eval, res) = run_source("fn f() { return 1 } fn f(a) { return a }");
    assert_eq!(res, Err(EvalError::DuplicateDefinition));
    // The first definition stands.
    assert_eq!(eval.call_fn("f", Vec::new()), Ok(number_value("1")));
}

#[test]
fn call_of_an_undefined_function_fails() {
    let mut eval = evaluator_after("let x = 1");
    assert_eq!(eval.call_fn("nope", Vec::new()), Err(EvalError::UndefinedFunction));
    let (_, res) = run_source("nope()");
    assert_eq!(res, Err(EvalError::UndefinedFunction));
}

#[test]
fn call_with_the_wrong_number_of_arguments_fails() {
    let mut eval = evaluator_after("fn add(a, b) { return a }");
    assert_eq!(eval.call_fn("add", vec![num("1")]), Err(EvalError::Arity));
    assert_eq!(
        eval.call_fn("add", vec![num("1"), num("2"), num("3")]),
        Err(EvalError::Arity)
    );
    assert_eq!(eval.call_fn("add", Vec::new()), Err(EvalError::Arity));
}

#[test]
fn faulty_call_evaluates_nothing() {
    // `touch` would change `x`; a call that fails on the function's name
    // or on the number of arguments must not evaluate its arguments.
    let mut eval = evaluator_after("let x = 1 fn touch() { x = 2 return x } fn one(a) { return a }");
    let touch = || Expr::Fn("touch".to_string(), Vec::new());
    assert_eq!(eval.call_fn("nope", vec![touch()]), Err(EvalError::UndefinedFunction));
    assert_eq!(eval.get_val_from_var("x"), Some(number_value("1")));
    assert_eq!(eval.call_fn("one", vec![touch(), touch()]), Err(EvalError::Arity));
    assert_eq!(eval.get_val_from_var("x"), Some(number_value("1")));
    // With the right number of arguments the argument is evaluated.
    assert_eq!(eval.call_fn("one", vec![touch()]), Ok(number_value("2")));
    assert_eq!(eval.get_val_from_var("x"), Some(number_value("2")));
}

#[test]
fn arity_is_checked_before_the_body_runs() {
    let mut eval = evaluator_after("let x = 1 fn set(a) { x = a }");
    assert_eq!(eval.call_fn("set", Vec::new()), Err(EvalError::Arity));
    assert_eq!(eval.get_val_from_var("x"), Some(number_value("1")));
}

#[test]
fn undefined_identifier_fails_at_its_use() {
    let mut eval = Q9Eval::new(Program { content: Vec::new() });
    assert_eq!(eval.eval_expr(ident("ghost")), Err(EvalError::UndefinedVariable));
    assert_eq!(eval.get_val_from_var("ghost"), None);
    let (_, res) = run_source("let x = ghost");
    assert_eq!(res, Err(EvalError::UndefinedVariable));
}

#[test]
fn assigning_an_undefined_variable_fails() {
    let (_, res) = run_source("x = 5");
    assert_eq!(res, Err(EvalError::UndefinedVariable));
    let mut eval = Q9Eval::new(Program { content: Vec::new() });
    assert_eq!(eval.set_val("x", num("5")), Err(EvalError::UndefinedVariable));
}

#[test]
fn assignment_overwrites_in_place() {
    let eval = evaluator_after("let x = 1 let y = 2 x = 3");
    assert_eq!(eval.get_val_from_var("x"), Some(number_value("3")));
    assert_eq!(eval.get_val_from_var("y"), Some(number_value("2")));
}

#[test]
fn set_val_evaluates_its_expression() {
    let mut eval = evaluator_after("let x = 1 let y = 2");
    assert_eq!(eval.set_val("x", ident("y")), Ok(()));
    assert_eq!(eval.get_val_from_var("x"), Some(number_value("2")));
    assert_eq!(eval.set_val("x", ident("ghost")), Err(EvalError::UndefinedVariable));
    assert_eq!(eval.get_val_from_var("x"), Some(number_value("2")));
}

#[test]
fn assignment_inside_a_function_reaches_the_global() {
    let mut eval = evaluator_after("let x = 1 fn set(a) { x = a }");
    assert_eq!(eval.call_fn("set", vec![num("9")]), Ok(Value::Void));
    assert_eq!(eval.get_val_from_var("x"), Some(number_value("9")));
}

#[test]
fn assignment_to_a_parameter_changes_the_local() {
    let mut eval = evaluator_after("fn f(a) { a = 5 return a }");
    assert_eq!(eval.call_fn("f", vec![num("1")]), Ok(number_value("5")));
    assert_eq!(eval.get_val_from_var("a"), None);
}

#[test]
fn global_table_is_searched_before_the_local_set() {
    let mut eval = evaluator_after("let a = 1 fn f(a) { return a }");
    assert_eq!(eval.call_fn("f", vec![num("2")]), Ok(number_value("1")));
}

#[test]
fn return_in_global_scope_fails() {
    let (_, res) = run_source("return 1");
    assert_eq!(res, Err(EvalError::InvalidContext));
}

#[test]
fn return_in_a_block_outside_a_call_fails() {
    let (_, res) = run_source("{ return 1 }");
    assert_eq!(res, Err(EvalError::InvalidContext));
}

#[test]
fn return_after_a_nested_call_is_legal() {
    let mut eval = evaluator_after("fn g() { return 1 } fn f() { g() return 2 }");
    assert_eq!(eval.call_fn("f", Vec::new()), Ok(number_value("2")));
}

#[test]
fn return_in_a_block_ends_the_block_only() {
    let mut eval = evaluator_after("fn f() { { return 1 } return 2 }");
    assert_eq!(eval.call_fn("f", Vec::new()), Ok(number_value("2")));
}

#[test]
fn function_definition_outside_global_scope_fails() {
    let def = Statement::FuncDef(
        Function { name: "f".to_string(), body: Block { body: Vec::new() } },
        Vec::new(),
    );
    let block = Statement::BlockStmt(Block { body: vec![def] });
    let mut eval = Q9Eval::new(Program { content: Vec::new() });
    assert_eq!(eval.eval(vec![block], None), Err(EvalError::InvalidContext));
    assert_eq!(eval.call_fn("f", Vec::new()), Err(EvalError::UndefinedFunction));
}

#[test]
fn scope_is_global_again_after_a_block() {
    let mut eval = evaluator_after("{ let y = 1 } fn f() { return 1 }");
    assert_eq!(eval.call_fn("f", Vec::new()), Ok(number_value("1")));
    let mut failed = Q9Eval::new(Program { content: Vec::new() });
    let bad = Statement::BlockStmt(Block { body: vec![Statement::Return(num("1"))] });
    assert_eq!(failed.eval(vec![bad], None), Err(EvalError::InvalidContext));
    // The block failed; definitions are still those of global scope.
    let def = Statement::FuncDef(
        Function { name: "f".to_string(), body: Block { body: Vec::new() } },
        Vec::new(),
    );
    assert_eq!(failed.eval(vec![def], None), Ok(Value::Void));
}

#[test]
fn block_variables_are_local() {
    let eval = evaluator_after("{ let y = 1 } let z = 2");
    assert_eq!(eval.get_val_from_var("y"), None);
    assert_eq!(eval.get_val_from_var("z"), Some(number_value("2")));
}

#[test]
fn block_sees_its_own_variables() {
    let eval = evaluator_after("let x = 1 { let y = 2 x = y }");
    assert_eq!(eval.get_val_from_var("x"), Some(number_value("2")));
}

#[test]
fn locals_are_cleared_when_a_sequence_ends() {
    let mut eval = evaluator_after("fn f(a) { return a }");
    assert_eq!(eval.call_fn("f", vec![num("1")]), Ok(number_value("1")));
    assert_eq!(eval.get_val_from_var("a"), None);
    // A second call binds `a` anew.
    assert_eq!(eval.call_fn("f", vec![num("2")]), Ok(number_value("2")));
}

#[test]
fn locals_are_cleared_when_a_sequence_fails() {
    let mut eval = evaluator_after("fn f(a) { ghost = a }");
    assert_eq!(eval.call_fn("f", vec![num("1")]), Err(EvalError::UndefinedVariable));
    assert_eq!(eval.get_val_from_var("a"), None);
}

#[test]
fn callee_sees_no_local_of_its_caller() {
    let mut eval = evaluator_after("fn g() { return a } fn f(a) { return g() }");
    assert_eq!(eval.call_fn("f", vec![num("1")]), Err(EvalError::UndefinedVariable));
    // A block is no call: it sees the locals around it.
    let mut inner = evaluator_after("fn f(a) { { a = 2 return a } }");
    assert_eq!(inner.call_fn("f", vec![num("1")]), Ok(Value::Void));
}

#[test]
fn caller_has_lost_its_locals_after_a_call() {
    let mut eval = evaluator_after("fn g() { return 1 } fn f(a) { g() return a }");
    assert_eq!(eval.call_fn("f", vec![num("1")]), Err(EvalError::UndefinedVariable));
    let mut block = evaluator_after("fn f(a) { { } return a }");
    assert_eq!(block.call_fn("f", vec![num("1")]), Err(EvalError::UndefinedVariable));
}

#[test]
fn definition_after_a_nested_call_is_global() {
    let mut eval = evaluator_after("fn g() { return 1 } fn f() { g() let y = 2 }");
    assert_eq!(eval.call_fn("f", Vec::new()), Ok(Value::Void));
    assert_eq!(eval.get_val_from_var("y"), Some(number_value("2")));
}

#[test]
fn incoming_bindings_join_the_local_set() {
    let mut eval = Q9Eval::new(Program { content: Vec::new() });
    let args = vec![EvalVariable::new("a".to_string(), number_value("7"))];
    let stmts = vec![Statement::VarDef("b".to_string(), ident("a"))];
    assert_eq!(eval.eval(stmts, Some(args)), Ok(Value::Void));
    assert_eq!(eval.get_val_from_var("b"), Some(number_value("7")));
    assert_eq!(eval.get_val_from_var("a"), None);
}

#[test]
fn arguments_are_evaluated_from_left_to_right() {
    let mut eval = evaluator_after(
        "let x = 0 fn first() { x = 1 return x } fn second() { x = 2 return x } fn pair(a, b) { return a }",
    );
    let call = |name: &str| Expr::Fn(name.to_string(), Vec::new());
    assert_eq!(
        eval.call_fn("pair", vec![call("first"), call("second")]),
        Ok(number_value("1"))
    );
    assert_eq!(eval.get_val_from_var("x"), Some(number_value("2")));
}

#[test]
fn call_statement_discards_the_value() {
    let (eval, res) = run_source("let x = 1 fn f() { x = 2 return 3 } f()");
    assert_eq!(res, Ok(Value::Void));
    assert_eq!(eval.get_val_from_var("x"), Some(number_value("2")));
}

#[test]
fn endless_recursion_stops_at_the_limit() {
    let (mut eval, res) = run_source("fn f() { f() } f()");
    assert_eq!(res, Err(EvalError::RecursionLimit));
    // The evaluator is back outside every call.
    assert_eq!(eval.eval(vec![Statement::Return(num("1"))], None), Err(EvalError::InvalidContext));
}

#[test]
fn calls_nest_up_to_the_limit() {
    let source = "fn a() { return 1 } fn b() { return a() } fn c() { return b() }";
    let mut deep = Q9Eval::with_call_limit(program(source), 3);
    deep.run().unwrap();
    assert_eq!(deep.call_fn("c", Vec::new()), Ok(number_value("1")));
    let mut shallow = Q9Eval::with_call_limit(program(source), 2);
    shallow.run().unwrap();
    assert_eq!(shallow.call_fn("c", Vec::new()), Err(EvalError::RecursionLimit));
    assert_eq!(shallow.call_fn("b", Vec::new()), Ok(number_value("1")));
    let mut none = Q9Eval::with_call_limit(program(source), 0);
    none.run().unwrap();
    assert_eq!(none.call_fn("a", Vec::new()), Err(EvalError::RecursionLimit));
    assert_eq!(DEFAULT_CALL_LIMIT, 64);
}

#[test]
fn binary_operation_is_not_evaluated() {
    let mut eval = Q9Eval::new(Program { content: Vec::new() });
    let sum = Expr::BinOp(Box::new(num("1")), BinOp::Add, Box::new(num("2")));
    assert_eq!(eval.eval_expr(sum), Err(EvalError::UnsupportedExpression));
}

#[test]
fn literal_evaluates_to_its_value() {
    let mut eval = Q9Eval::new(Program { content: Vec::new() });
    let v = eval.eval_expr(num("2.5")).unwrap();
    assert_eq!(float_of(&v), 2.5);
    assert_eq!(Value::from(ExprValue::Num(Number::parse("1e2").unwrap())), number_value("1e2"));
}

#[test]
fn value_reads_as_text() {
    assert_eq!(number_value("2").to_text(), "number value (value: 2)");
    assert_eq!(Value::Void.to_text(), "void value");
    assert_eq!(ExprValue::Num(Number::parse("2").unwrap()).to_text(), "number(value: 2)");
}

#[test]
fn evaluator_keeps_its_program() {
    let eval = evaluator_after("let x = 2");
    assert_eq!(eval.prog.content.len(), 1);
}

#[test]
fn variable_holds_its_name_and_value() {
    let var = EvalVariable::new("a".to_string(), number_value("7"));
    assert_eq!(var.name(), "a");
    assert_eq!(var.value(), &number_value("7"));
}
