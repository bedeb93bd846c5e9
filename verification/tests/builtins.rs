use lang::ast::Expr;
use lang::builtin::{compare, equal, list, nth, reduce, string_append, subtract, Builtin};
use lang::env::Env;
use lang::eval::eval;
use lang::LangError;

fn n(v: i64) -> Expr {
    Expr::Num(v)
}

fn s(text: &str) -> Expr {
    Expr::String(text.to_string())
}

fn nums_of(values: &[i64]) -> Vec<Expr> {
    values.iter().map(|v| Expr::Num(*v)).collect()
}

#[test]
fn sum_is_left_to_right_sum() {
    assert_eq!(Builtin::Add.call(&nums_of(&[1, 2, 3, 4, 5])), Ok(n(15)));
    assert_eq!(Builtin::Add.call(&nums_of(&[7])), Ok(n(7)));
    assert_eq!(Builtin::Add.call(&nums_of(&[-3, 3, -10])), Ok(n(-10)));
    assert_eq!(reduce(Builtin::Add, &nums_of(&[40, 2])), Ok(n(42)));
}

#[test]
fn product_is_left_to_right_product() {
    assert_eq!(Builtin::Mul.call(&nums_of(&[2, 3, 4])), Ok(n(24)));
    assert_eq!(Builtin::Mul.call(&nums_of(&[-2, 3])), Ok(n(-6)));
    assert_eq!(Builtin::Mul.call(&nums_of(&[5])), Ok(n(5)));
}

#[test]
fn reducing_operators_reject_no_arguments() {
    for op in [
        Builtin::Add,
        Builtin::Sub,
        Builtin::Mul,
        Builtin::Div,
        Builtin::Rem,
        Builtin::Pow,
        Builtin::Max,
        Builtin::Min,
    ] {
        assert_eq!(op.call(&[]), Err(LangError::InvalidArgsLen));
    }
}

#[test]
fn arithmetic_rejects_non_numbers() {
    for op in [
        Builtin::Add,
        Builtin::Sub,
        Builtin::Mul,
        Builtin::Div,
        Builtin::Rem,
        Builtin::Pow,
        Builtin::Max,
        Builtin::Min,
    ] {
        assert_eq!(op.call(&[n(1), s("x")]), Err(LangError::TypeMismatched));
        assert_eq!(op.call(&[Expr::Bool(true)]), Err(LangError::TypeMismatched));
    }
}

#[test]
fn overflow_is_detected() {
    assert_eq!(Builtin::Add.call(&nums_of(&[i64::MAX, 1])), Err(LangError::Overflow));
    assert_eq!(Builtin::Add.call(&nums_of(&[i64::MAX, 1, -1])), Err(LangError::Overflow));
    assert_eq!(Builtin::Mul.call(&nums_of(&[i64::MAX, 2])), Err(LangError::Overflow));
    assert_eq!(Builtin::Sub.call(&nums_of(&[i64::MIN])), Err(LangError::Overflow));
    assert_eq!(Builtin::Sub.call(&nums_of(&[i64::MIN, 1])), Err(LangError::Overflow));
    assert_eq!(Builtin::Div.call(&nums_of(&[i64::MIN, -1])), Err(LangError::Overflow));
    assert_eq!(Builtin::Add.call(&nums_of(&[i64::MAX, 0])), Ok(n(i64::MAX)));
}

#[test]
fn subtraction_negates_or_subtracts_the_rest() {
    assert_eq!(subtract(&nums_of(&[5])), Ok(n(-5)));
    assert_eq!(subtract(&nums_of(&[10, 3])), Ok(n(7)));
    assert_eq!(subtract(&nums_of(&[10, 1, 2, 3])), Ok(n(4)));
    assert_eq!(subtract(&nums_of(&[0, i64::MAX, 1])), Err(LangError::Overflow));
}

#[test]
fn division_truncates_toward_zero() {
    assert_eq!(Builtin::Div.call(&nums_of(&[9, 3])), Ok(n(3)));
    assert_eq!(Builtin::Div.call(&nums_of(&[7, 2])), Ok(n(3)));
    assert_eq!(Builtin::Div.call(&nums_of(&[-7, 2])), Ok(n(-3)));
    assert_eq!(Builtin::Div.call(&nums_of(&[7, -2])), Ok(n(-3)));
    assert_eq!(Builtin::Div.call(&nums_of(&[-7, -2])), Ok(n(3)));
    assert_eq!(Builtin::Div.call(&nums_of(&[100, 5, 2])), Ok(n(10)));
    assert_eq!(Builtin::Div.call(&nums_of(&[8])), Ok(n(8)));
}

#[test]
fn division_by_zero_fails() {
    assert_eq!(Builtin::Div.call(&nums_of(&[1, 0])), Err(LangError::DivideByZero));
    assert_eq!(Builtin::Div.call(&nums_of(&[0, 0])), Err(LangError::DivideByZero));
    assert_eq!(Builtin::Div.call(&nums_of(&[i64::MIN, 0])), Err(LangError::DivideByZero));
    assert_eq!(Builtin::Div.call(&nums_of(&[8, 2, 0, 4])), Err(LangError::DivideByZero));
    assert_eq!(Builtin::Div.call(&nums_of(&[0, 5])), Ok(n(0)));
    assert_eq!(Builtin::Rem.call(&nums_of(&[5, 0])), Err(LangError::DivideByZero));
}

#[test]
fn first_failing_step_decides() {
    assert_eq!(Builtin::Div.call(&nums_of(&[i64::MIN, -1, 0])), Err(LangError::Overflow));
    assert_eq!(Builtin::Div.call(&nums_of(&[i64::MIN, 0, -1])), Err(LangError::DivideByZero));
}

#[test]
fn remainder_has_sign_of_dividend() {
    assert_eq!(Builtin::Rem.call(&nums_of(&[7, 3])), Ok(n(1)));
    assert_eq!(Builtin::Rem.call(&nums_of(&[-7, 3])), Ok(n(-1)));
    assert_eq!(Builtin::Rem.call(&nums_of(&[7, -3])), Ok(n(1)));
    assert_eq!(Builtin::Rem.call(&nums_of(&[-7, -3])), Ok(n(-1)));
    assert_eq!(Builtin::Rem.call(&nums_of(&[i64::MIN, -1])), Ok(n(0)));
    assert_eq!(Builtin::Rem.call(&nums_of(&[100, 7, 2])), Ok(n(0)));
}

#[test]
fn extrema_reduce_over_all_arguments() {
    assert_eq!(Builtin::Max.call(&nums_of(&[3, 9, -1, 9, 4])), Ok(n(9)));
    assert_eq!(Builtin::Min.call(&nums_of(&[3, 9, -1, 9, 4])), Ok(n(-1)));
    assert_eq!(Builtin::Max.call(&nums_of(&[-5])), Ok(n(-5)));
}

#[test]
fn chained_comparison_is_a_sliding_window() {
    assert_eq!(Builtin::Less.call(&nums_of(&[1, 2, 3])), Ok(Expr::Bool(true)));
    assert_eq!(Builtin::Less.call(&nums_of(&[1, 3, 2])), Ok(Expr::Bool(false)));
    assert_eq!(Builtin::Less.call(&nums_of(&[3, 1, 2])), Ok(Expr::Bool(false)));
    assert_eq!(Builtin::Less.call(&nums_of(&[1, 1])), Ok(Expr::Bool(false)));
    assert_eq!(Builtin::LessEq.call(&nums_of(&[1, 1, 2])), Ok(Expr::Bool(true)));
    assert_eq!(Builtin::Greater.call(&nums_of(&[5, 4, 3, 2])), Ok(Expr::Bool(true)));
    assert_eq!(Builtin::Greater.call(&nums_of(&[5, 4, 4])), Ok(Expr::Bool(false)));
    assert_eq!(Builtin::GreaterEq.call(&nums_of(&[5, 4, 4])), Ok(Expr::Bool(true)));
    assert_eq!(compare(Builtin::Less, &nums_of(&[1, 2, 3, 4, 5])), Ok(Expr::Bool(true)));
}

#[test]
fn comparison_needs_two_numbers() {
    for op in [Builtin::Less, Builtin::Greater, Builtin::LessEq, Builtin::GreaterEq] {
        assert_eq!(op.call(&[]), Err(LangError::InvalidArgsLen));
        assert_eq!(op.call(&nums_of(&[1])), Err(LangError::InvalidArgsLen));
        assert_eq!(op.call(&[n(1), s("2")]), Err(LangError::TypeMismatched));
    }
    assert_eq!(Builtin::Equal.call(&nums_of(&[1])), Err(LangError::InvalidArgsLen));
    assert_eq!(Builtin::NotEqual.call(&[]), Err(LangError::InvalidArgsLen));
}

#[test]
fn equality_compares_by_value_and_type() {
    assert_eq!(equal(&[n(1), n(1), n(1)], true), Ok(Expr::Bool(true)));
    assert_eq!(equal(&[n(1), n(1), n(2)], true), Ok(Expr::Bool(false)));
    assert_eq!(equal(&[n(1), s("1")], true), Ok(Expr::Bool(false)));
    assert_eq!(equal(&[s("a"), s("a")], true), Ok(Expr::Bool(true)));
    assert_eq!(Builtin::NotEqual.call(&[n(1), n(2), n(1)]), Ok(Expr::Bool(true)));
    assert_eq!(Builtin::NotEqual.call(&[n(1), n(2), n(2)]), Ok(Expr::Bool(false)));
    let a = list(&[n(1), s("x")]).unwrap();
    let b = list(&[n(1), s("x")]).unwrap();
    let c = list(&[n(1), s("y")]).unwrap();
    assert_eq!(Builtin::Equal.call(&[a.clone(), b]), Ok(Expr::Bool(true)));
    assert_eq!(Builtin::Equal.call(&[a, c]), Ok(Expr::Bool(false)));
}

#[test]
fn string_append_concatenates_in_order() {
    assert_eq!(string_append(&[s("ab"), s(""), s("cd")]), Ok(s("abcd")));
    assert_eq!(string_append(&[]), Ok(s("")));
    assert_eq!(
        string_append(&[s("ab"), n(1)]),
        Err(LangError::Other("expected a string".to_string()))
    );
}

#[test]
fn list_wraps_its_arguments() {
    assert_eq!(
        list(&nums_of(&[1, 2, 3])),
        Ok(Expr::QExpr(Box::new(Expr::SExpr(nums_of(&[1, 2, 3])))))
    );
    assert_eq!(list(&[]), Ok(Expr::QExpr(Box::new(Expr::SExpr(vec![])))));
}

#[test]
fn accessors_extract_by_position() {
    let l = list(&nums_of(&[1, 2, 3, 4])).unwrap();
    assert_eq!(Builtin::Car.call(&[l.clone()]), Ok(n(1)));
    assert_eq!(Builtin::Cdr.call(&[l.clone()]), Ok(n(2)));
    assert_eq!(Builtin::Cadr.call(&[l.clone()]), Ok(n(2)));
    assert_eq!(Builtin::Caddr.call(&[l.clone()]), Ok(n(3)));
    assert_eq!(Builtin::Cadddr.call(&[l.clone()]), Ok(n(4)));
    assert_eq!(nth(&[l], 4), Err(LangError::InvalidArgsLen));
}

#[test]
fn accessors_reject_what_is_no_long_enough_list() {
    let empty = list(&[]).unwrap();
    assert_eq!(Builtin::Car.call(&[empty]), Err(LangError::InvalidArgsLen));
    assert_eq!(Builtin::Car.call(&[]), Err(LangError::InvalidArgsLen));
    assert_eq!(Builtin::Car.call(&[n(1)]), Err(LangError::InvalidArgsLen));
    assert_eq!(Builtin::Car.call(&[Expr::QExpr(Box::new(n(1)))]), Err(LangError::InvalidArgsLen));
    let short = list(&nums_of(&[1])).unwrap();
    assert_eq!(Builtin::Cadr.call(&[short]), Err(LangError::InvalidArgsLen));
}

#[test]
fn begin_yields_last_argument() {
    assert_eq!(Builtin::Begin.call(&nums_of(&[1, 2, 3])), Ok(n(3)));
    assert_eq!(Builtin::Begin.call(&[]), Err(LangError::InvalidArgsLen));
}

#[test]
fn writers_return_nil_and_say_what_they_write() {
    assert_eq!(Builtin::Display.call(&[n(1)]), Ok(Expr::Nil));
    assert_eq!(Builtin::Display.written(&[n(1), n(-20)]), "1-20");
    assert_eq!(Builtin::Displayln.written(&[s("a")]), "\"a\"\n");
    assert_eq!(Builtin::Println.written(&[]), "\n");
    assert_eq!(Builtin::Newline.written(&[]), "\n");
    assert_eq!(Builtin::Newline.written(&[n(1)]), "");
    assert_eq!(Builtin::Add.written(&[n(1)]), "");
}

#[test]
fn every_builtin_is_bound_in_the_root_scope() {
    let mut env = Env::default();
    let names = [
        ("+", Builtin::Add),
        ("-", Builtin::Sub),
        ("*", Builtin::Mul),
        ("/", Builtin::Div),
        ("%", Builtin::Rem),
        ("^", Builtin::Pow),
        ("max", Builtin::Max),
        ("min", Builtin::Min),
        (">", Builtin::Greater),
        ("<", Builtin::Less),
        (">=", Builtin::GreaterEq),
        ("<=", Builtin::LessEq),
        ("=", Builtin::Equal),
        ("!=", Builtin::NotEqual),
        ("string-append", Builtin::StringAppend),
        ("++", Builtin::StringAppend),
        ("list", Builtin::List),
        ("car", Builtin::Car),
        ("cdr", Builtin::Cdr),
        ("cadr", Builtin::Cadr),
        ("caddr", Builtin::Caddr),
        ("cadddr", Builtin::Cadddr),
        ("begin", Builtin::Begin),
        ("display", Builtin::Display),
        ("displayln", Builtin::Displayln),
        ("println", Builtin::Println),
        ("newline", Builtin::Newline),
    ];
    for (name, f) in names {
        assert_eq!(env.get(&name.to_string()), Some(Expr::Fn(f)));
        assert_eq!(eval(&Expr::Symbol(name.to_string()), &mut env), Ok(Expr::Fn(f)));
    }
    assert_eq!(Builtin::Caddr.name_str(), "caddr");
}

#[test]
fn quoting_through_the_evaluator() {
    let mut env = Env::default();
    let sym = |x: &str| Expr::Symbol(x.to_string());
    let make = Expr::SExpr(vec![sym("list"), n(1), n(2), n(3)]);
    assert_eq!(
        eval(&make, &mut env),
        Ok(Expr::QExpr(Box::new(Expr::SExpr(nums_of(&[1, 2, 3])))))
    );
    assert_eq!(eval(&Expr::SExpr(vec![sym("car"), make.clone()]), &mut env), Ok(n(1)));
    assert_eq!(eval(&Expr::SExpr(vec![sym("cadr"), make]), &mut env), Ok(n(2)));
    let empty = Expr::SExpr(vec![sym("list")]);
    assert_eq!(
        eval(&Expr::SExpr(vec![sym("car"), empty]), &mut env),
        Err(LangError::InvalidArgsLen)
    );
}

#[test]
fn comparison_through_the_evaluator() {
    let mut env = Env::default();
    let sym = |x: &str| Expr::Symbol(x.to_string());
    let test = Expr::SExpr(vec![sym("<"), n(1), n(2), n(3), n(4), n(5)]);
    let expr = Expr::SExpr(vec![sym("if"), test, s("Yes"), s("No")]);
    assert_eq!(eval(&expr, &mut env), Ok(s("Yes")));
    let expr = Expr::SExpr(vec![sym("/"), n(5), Expr::SExpr(vec![sym("-"), n(2), n(2)])]);
    assert_eq!(eval(&expr, &mut env), Err(LangError::DivideByZero));
}
