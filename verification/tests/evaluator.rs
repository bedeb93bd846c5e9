use lang::ast::Expr;
use lang::env::Env;
use lang::eval::{eval, eval_all, eval_args, eval_sexpr, eval_within};
use lang::LangError;

fn sym(name: &str) -> Expr {
    Expr::Symbol(name.to_string())
}

fn num(n: i64) -> Expr {
    Expr::Num(n)
}

fn call(items: Vec<Expr>) -> Expr {
    Expr::SExpr(items)
}

fn run(expr: Expr, env: &mut Env) -> Result<Expr, LangError> {
    eval(&expr, env)
}

#[test]
fn literals_evaluate_to_themselves() {
    let mut env = Env::default();
    assert_eq!(run(num(7), &mut env), Ok(num(7)));
    assert_eq!(run(Expr::Bool(true), &mut env), Ok(Expr::Bool(true)));
    assert_eq!(run(Expr::Nil, &mut env), Ok(Expr::Nil));
    assert_eq!(run(Expr::String("hi".to_string()), &mut env), Ok(Expr::String("hi".to_string())));
}

#[test]
fn quoted_list_is_not_evaluated() {
    let mut env = Env::default();
    let quoted = Expr::QExpr(Box::new(call(vec![sym("+"), num(1), num(2)])));
    assert_eq!(run(quoted.clone(), &mut env), Ok(quoted));
}

#[test]
fn unbound_symbol_is_invalid() {
    let mut env = Env::default();
    assert_eq!(run(sym("nowhere"), &mut env), Err(LangError::InvalidSymbol("nowhere".to_string())));
}

#[test]
fn empty_application_is_nil() {
    let mut env = Env::default();
    assert_eq!(run(call(vec![]), &mut env), Ok(Expr::Nil));
    assert_eq!(eval_sexpr(&[], &mut env), Ok(Expr::Nil));
}

#[test]
fn singleton_application_is_transparent() {
    let mut env = Env::default();
    assert_eq!(run(call(vec![num(5)]), &mut env), Ok(num(5)));
    assert_eq!(run(call(vec![call(vec![num(5)])]), &mut env), Ok(num(5)));
}

#[test]
fn non_callable_head_is_invalid_symbol() {
    let mut env = Env::default();
    assert_eq!(
        run(call(vec![num(5), num(6)]), &mut env),
        Err(LangError::InvalidSymbol("5".to_string()))
    );
    assert_eq!(
        run(call(vec![Expr::Bool(false), num(2)]), &mut env),
        Err(LangError::InvalidSymbol("#f".to_string()))
    );
}

#[test]
fn addition_and_nesting() {
    let mut env = Env::default();
    let inner = call(vec![sym("*"), num(2), num(2), call(vec![sym("/"), num(9), num(3)])]);
    let expr = call(vec![
        sym("+"),
        num(1),
        num(2),
        num(3),
        num(4),
        num(5),
        call(vec![sym("-"), inner]),
    ]);
    assert_eq!(run(expr, &mut env), Ok(num(3)));
}

#[test]
fn define_function_then_call() {
    let mut env = Env::default();
    let def = call(vec![
        sym("define"),
        call(vec![sym("f"), sym("x")]),
        call(vec![sym("+"), sym("x"), num(1)]),
    ]);
    assert_eq!(run(def, &mut env), Ok(sym("f")));
    assert_eq!(run(call(vec![sym("f"), num(5)]), &mut env), Ok(num(6)));
}

#[test]
fn call_with_wrong_argument_count_fails() {
    let mut env = Env::default();
    let def = call(vec![
        sym("define"),
        call(vec![sym("f"), sym("x")]),
        call(vec![sym("+"), sym("x"), num(1)]),
    ]);
    run(def, &mut env).unwrap();
    assert_eq!(run(call(vec![sym("f")]), &mut env), Err(LangError::InvalidArgsLen));
    assert_eq!(run(call(vec![sym("f"), num(1), num(2)]), &mut env), Err(LangError::InvalidArgsLen));
}

#[test]
fn define_value_and_use_it() {
    let mut env = Env::default();
    assert_eq!(run(call(vec![sym("def"), sym("a"), num(1)]), &mut env), Ok(sym("a")));
    assert_eq!(run(call(vec![sym("+"), sym("a"), num(1)]), &mut env), Ok(num(2)));
    assert_eq!(env.get(&"a".to_string()), Some(num(1)));
}

#[test]
fn define_overwrites_in_current_scope() {
    let mut env = Env::default();
    run(call(vec![sym("define"), sym("a"), num(1)]), &mut env).unwrap();
    run(call(vec![sym("define"), sym("a"), num(2)]), &mut env).unwrap();
    assert_eq!(run(sym("a"), &mut env), Ok(num(2)));
}

#[test]
fn define_rejects_bad_shapes() {
    let mut env = Env::default();
    assert_eq!(run(call(vec![sym("define"), sym("a")]), &mut env), Err(LangError::InvalidArgsLen));
    assert_eq!(
        run(call(vec![sym("define"), num(1), num(2)]), &mut env),
        Err(LangError::TypeMismatched)
    );
    assert_eq!(
        run(call(vec![sym("define"), call(vec![]), num(2)]), &mut env),
        Err(LangError::InvalidArgsLen)
    );
    assert_eq!(
        run(call(vec![sym("define"), call(vec![num(1), sym("x")]), num(2)]), &mut env),
        Err(LangError::TypeMismatched)
    );
}

#[test]
fn if_selects_a_branch() {
    let mut env = Env::default();
    assert_eq!(run(call(vec![sym("if"), Expr::Bool(true), num(1), num(2)]), &mut env), Ok(num(1)));
    assert_eq!(run(call(vec![sym("if"), Expr::Bool(false), num(1), num(2)]), &mut env), Ok(num(2)));
}

#[test]
fn if_requires_boolean_condition() {
    let mut env = Env::default();
    assert_eq!(
        run(call(vec![sym("if"), num(1), num(1), num(2)]), &mut env),
        Err(LangError::TypeMismatched)
    );
}

#[test]
fn if_requires_three_operands() {
    let mut env = Env::default();
    assert_eq!(
        run(call(vec![sym("if"), Expr::Bool(true), num(1)]), &mut env),
        Err(LangError::InvalidArgsLen)
    );
    assert_eq!(run(call(vec![sym("if")]), &mut env), Err(LangError::InvalidArgsLen));
}

#[test]
fn if_leaves_untaken_branch_alone() {
    let mut env = Env::default();
    let expr = call(vec![sym("if"), Expr::Bool(true), num(1), sym("unbound")]);
    assert_eq!(run(expr, &mut env), Ok(num(1)));
    let expr = call(vec![
        sym("if"),
        Expr::Bool(false),
        call(vec![sym("define"), sym("z"), num(1)]),
        num(2),
    ]);
    assert_eq!(run(expr, &mut env), Ok(num(2)));
    assert_eq!(env.get(&"z".to_string()), None);
}

#[test]
fn cond_falls_through_to_else() {
    let mut env = Env::default();
    let expr = call(vec![
        sym("cond"),
        call(vec![Expr::Bool(false), num(1)]),
        call(vec![Expr::Bool(false), num(2)]),
        call(vec![sym("else"), num(3)]),
    ]);
    assert_eq!(run(expr, &mut env), Ok(num(3)));
}

#[test]
fn cond_first_match_wins() {
    let mut env = Env::default();
    let expr = call(vec![
        sym("cond"),
        call(vec![Expr::Bool(true), num(1)]),
        call(vec![Expr::Bool(true), num(2)]),
    ]);
    assert_eq!(run(expr, &mut env), Ok(num(1)));
    let expr = call(vec![
        sym("when"),
        call(vec![Expr::Bool(true), num(1)]),
        call(vec![sym("unbound"), num(2)]),
    ]);
    assert_eq!(run(expr, &mut env), Ok(num(1)));
}

#[test]
fn cond_failures() {
    let mut env = Env::default();
    assert_eq!(
        run(call(vec![sym("cond"), call(vec![Expr::Bool(true), num(1)])]), &mut env),
        Err(LangError::InvalidArgsLen)
    );
    assert_eq!(
        run(call(vec![sym("cond"), num(1), call(vec![Expr::Bool(true), num(1)])]), &mut env),
        Err(LangError::Unsupported)
    );
    assert_eq!(
        run(
            call(vec![sym("cond"), call(vec![num(1), num(1)]), call(vec![sym("else"), num(1)])]),
            &mut env
        ),
        Err(LangError::TypeMismatched)
    );
    assert_eq!(
        run(
            call(vec![
                sym("cond"),
                call(vec![Expr::Bool(true)]),
                call(vec![sym("else"), num(1)])
            ]),
            &mut env
        ),
        Err(LangError::InvalidArgsLen)
    );
}

#[test]
fn cond_without_match_evaluates_last_operand() {
    let mut env = Env::default();
    let expr = call(vec![
        sym("cond"),
        call(vec![Expr::Bool(false), num(1)]),
        call(vec![Expr::Bool(false), num(2)]),
    ]);
    assert_eq!(run(expr, &mut env), Err(LangError::InvalidSymbol("#f".to_string())));
}

#[test]
fn lambda_builds_closure_and_applies() {
    let mut env = Env::default();
    let lambda = call(vec![
        sym("lambda"),
        call(vec![sym("x"), sym("y")]),
        call(vec![sym("*"), sym("x"), sym("y")]),
    ]);
    let made = run(lambda.clone(), &mut env).unwrap();
    assert!(matches!(made, Expr::Lambda(_)));
    assert_eq!(run(call(vec![lambda, num(6), num(7)]), &mut env), Ok(num(42)));
    assert_eq!(run(call(vec![sym("fn"), sym("x")]), &mut env), Err(LangError::InvalidArgsLen));
}

#[test]
fn lambda_with_single_symbol_parameter() {
    let mut env = Env::default();
    let lambda = call(vec![sym("lambda"), sym("x"), call(vec![sym("+"), sym("x"), num(1)])]);
    assert_eq!(run(call(vec![lambda.clone(), num(1)]), &mut env), Ok(num(2)));
    assert_eq!(run(call(vec![lambda, num(1), num(2)]), &mut env), Err(LangError::InvalidArgsLen));
}

#[test]
fn closure_parameters_are_checked_at_application() {
    let mut env = Env::default();
    let bad = call(vec![sym("lambda"), call(vec![num(1)]), num(2)]);
    assert!(run(bad.clone(), &mut env).is_ok());
    assert_eq!(
        run(call(vec![bad, num(1)]), &mut env),
        Err(LangError::Other("expected a symbol".to_string()))
    );
    let worse = call(vec![sym("lambda"), num(1), num(2)]);
    assert_eq!(run(call(vec![worse, num(1)]), &mut env), Err(LangError::Unknown));
}

#[test]
fn closure_scope_is_discarded_after_call() {
    let mut env = Env::default();
    run(call(vec![sym("define"), sym("x"), num(10)]), &mut env).unwrap();
    let shadow = call(vec![
        sym("define"),
        call(vec![sym("g"), sym("x")]),
        call(vec![sym("begin"), call(vec![sym("define"), sym("y"), sym("x")]), sym("y")]),
    ]);
    run(shadow, &mut env).unwrap();
    assert_eq!(env.depth(), 1);
    assert_eq!(run(call(vec![sym("g"), num(3)]), &mut env), Ok(num(3)));
    assert_eq!(env.depth(), 1);
    assert_eq!(run(sym("x"), &mut env), Ok(num(10)));
    assert_eq!(run(sym("y"), &mut env), Err(LangError::InvalidSymbol("y".to_string())));
}

#[test]
fn free_variables_resolve_in_the_calling_chain() {
    let mut env = Env::default();
    run(
        call(vec![sym("define"), call(vec![sym("h")]), call(vec![sym("+"), sym("k"), num(1)])]),
        &mut env,
    )
    .unwrap();
    assert_eq!(run(call(vec![sym("h")]), &mut env), Err(LangError::InvalidSymbol("k".to_string())));
    run(call(vec![sym("define"), sym("k"), num(4)]), &mut env).unwrap();
    assert_eq!(run(call(vec![sym("h")]), &mut env), Ok(num(5)));
}

#[test]
fn recursion_works_within_the_limit() {
    let mut env = Env::default();
    let body = call(vec![
        sym("if"),
        call(vec![sym("="), sym("n"), num(0)]),
        num(1),
        call(vec![
            sym("*"),
            sym("n"),
            call(vec![sym("fact"), call(vec![sym("-"), sym("n"), num(1)])]),
        ]),
    ]);
    run(call(vec![sym("define"), call(vec![sym("fact"), sym("n")]), body]), &mut env).unwrap();
    assert_eq!(run(call(vec![sym("fact"), num(10)]), &mut env), Ok(num(3628800)));
}

#[test]
fn runaway_recursion_is_a_typed_error() {
    let mut env = Env::default();
    run(
        call(vec![sym("define"), call(vec![sym("loop")]), call(vec![sym("loop")])]),
        &mut env,
    )
    .unwrap();
    assert_eq!(
        eval_within(&call(vec![sym("loop")]), &mut env, 40),
        Err(LangError::RecursionLimitExceeded)
    );
    assert_eq!(env.depth(), 1);
    assert_eq!(eval_within(&call(vec![num(1)]), &mut env, 0), Err(LangError::RecursionLimitExceeded));
    assert_eq!(eval_within(&num(1), &mut env, 0), Ok(num(1)));
}

#[test]
fn arguments_are_evaluated_left_to_right() {
    let mut env = Env::default();
    let args = vec![
        call(vec![sym("define"), sym("a"), num(1)]),
        sym("a"),
        call(vec![sym("+"), sym("a"), num(1)]),
    ];
    assert_eq!(eval_args(&args, &mut env), Ok(vec![sym("a"), num(1), num(2)]));
    let failing = vec![num(1), sym("missing"), call(vec![sym("define"), sym("late"), num(1)])];
    assert_eq!(
        eval_args(&failing, &mut env),
        Err(LangError::InvalidSymbol("missing".to_string()))
    );
    assert_eq!(env.get(&"late".to_string()), None);
}

#[test]
fn failure_keeps_earlier_definitions() {
    let mut env = Env::default();
    let expr = call(vec![
        sym("+"),
        call(vec![sym("begin"), call(vec![sym("define"), sym("kept"), num(9)]), num(1)]),
        sym("missing"),
    ]);
    assert_eq!(run(expr, &mut env), Err(LangError::InvalidSymbol("missing".to_string())));
    assert_eq!(env.get(&"kept".to_string()), Some(num(9)));
}

#[test]
fn program_yields_one_result_per_form() {
    let mut env = Env::default();
    let program = vec![
        call(vec![sym("define"), sym("a"), num(2)]),
        sym("missing"),
        call(vec![sym("*"), sym("a"), num(21)]),
    ];
    let results = eval_all(&program, &mut env);
    assert_eq!(
        results,
        vec![Ok(sym("a")), Err(LangError::InvalidSymbol("missing".to_string())), Ok(num(42))]
    );
}

#[test]
fn display_writes_to_the_output() {
    let mut env = Env::default();
    let expr = call(vec![sym("display"), num(1), Expr::String("a".to_string()), Expr::Bool(true)]);
    assert_eq!(run(expr, &mut env), Ok(Expr::Nil));
    assert_eq!(env.take_output(), "1\"a\"#t");
    assert_eq!(env.take_output(), "");
    run(call(vec![sym("displayln"), num(2)]), &mut env).unwrap();
    run(call(vec![sym("println"), num(3)]), &mut env).unwrap();
    run(call(vec![sym("newline")]), &mut env).unwrap();
    assert_eq!(env.take_output(), "2\n3\n\n");
    assert_eq!(run(call(vec![sym("newline"), num(1)]), &mut env), Err(LangError::InvalidArgsLen));
    assert_eq!(env.take_output(), "");
}

#[test]
fn runaway_recursion_at_the_default_limit() {
    let mut env = Env::default();
    run(
        call(vec![sym("define"), call(vec![sym("forever"), sym("n")]), call(vec![
            sym("+"),
            num(1),
            call(vec![sym("forever"), call(vec![sym("+"), sym("n"), num(1)])]),
        ])]),
        &mut env,
    )
    .unwrap();
    assert_eq!(run(call(vec![sym("forever"), num(0)]), &mut env), Err(LangError::RecursionLimitExceeded));
    assert_eq!(env.depth(), 1);
    assert_eq!(run(call(vec![sym("+"), num(1), num(1)]), &mut env), Ok(num(2)));
}
