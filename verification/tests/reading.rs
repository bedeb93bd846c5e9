use lang::ast::Expr;
use lang::builtin::Builtin;
use lang::env::Env;
use lang::reader::{chars_of, LangParser};
use lang::LangError;

fn word(text: &str) -> Expr {
    Expr::Symbol(text.to_string())
}

fn failed(reason: &str) -> Result<Vec<Expr>, LangError> {
    Err(LangError::ParseFailed(reason.to_string()))
}

#[test]
fn reads_atoms() {
    assert_eq!(LangParser::parse("nil"), Ok(vec![Expr::Nil]));
    assert_eq!(LangParser::parse("#t #f"), Ok(vec![Expr::Bool(true), Expr::Bool(false)]));
    assert_eq!(LangParser::parse("abc"), Ok(vec![word("abc")]));
    assert_eq!(LangParser::parse("+ - <= string-append"), Ok(vec![
        word("+"),
        word("-"),
        word("<="),
        word("string-append"),
    ]));
    assert_eq!(LangParser::parse("nils #true"), Ok(vec![word("nils"), word("#true")]));
}

#[test]
fn reads_numbers() {
    assert_eq!(LangParser::parse("0 7 -7 +7 0042"), Ok(vec![
        Expr::Num(0),
        Expr::Num(7),
        Expr::Num(-7),
        Expr::Num(7),
        Expr::Num(42),
    ]));
    assert_eq!(LangParser::parse("9223372036854775807"), Ok(vec![Expr::Num(i64::MAX)]));
    assert_eq!(LangParser::parse("-9223372036854775808"), Ok(vec![Expr::Num(i64::MIN)]));
}

#[test]
fn rejects_numbers_it_cannot_hold() {
    assert_eq!(LangParser::parse("9223372036854775808"), failed("invalid number"));
    assert_eq!(LangParser::parse("-9223372036854775809"), failed("invalid number"));
    assert_eq!(LangParser::parse("99999999999999999999999999999999999999999"), failed("invalid number"));
    assert_eq!(LangParser::parse("1.5"), failed("invalid number"));
    assert_eq!(LangParser::parse("1e3"), failed("invalid number"));
    assert_eq!(LangParser::parse("12ab"), failed("invalid number"));
    assert_eq!(LangParser::parse("-1x"), failed("invalid number"));
}

#[test]
fn reads_strings() {
    assert_eq!(LangParser::parse("\"hello world\""), Ok(vec![Expr::String("hello world".to_string())]));
    assert_eq!(LangParser::parse("\"\""), Ok(vec![Expr::String(String::new())]));
    assert_eq!(LangParser::parse("\"(é)\" x"), Ok(vec![Expr::String("(é)".to_string()), word("x")]));
    assert_eq!(LangParser::parse("\"open"), failed("unterminated string"));
}

#[test]
fn reads_lists_and_nesting() {
    assert_eq!(LangParser::parse("()"), Ok(vec![Expr::SExpr(vec![])]));
    assert_eq!(
        LangParser::parse("(+ 1 (* 2 3))"),
        Ok(vec![Expr::SExpr(vec![
            word("+"),
            Expr::Num(1),
            Expr::SExpr(vec![word("*"), Expr::Num(2), Expr::Num(3)]),
        ])])
    );
    assert_eq!(
        LangParser::parse(" ( a\t(b)\n)\r\n(c) "),
        Ok(vec![
            Expr::SExpr(vec![word("a"), Expr::SExpr(vec![word("b")])]),
            Expr::SExpr(vec![word("c")]),
        ])
    );
    assert_eq!(LangParser::parse("(a)(b)"), Ok(vec![
        Expr::SExpr(vec![word("a")]),
        Expr::SExpr(vec![word("b")]),
    ]));
}

#[test]
fn reads_quotes() {
    assert_eq!(
        LangParser::parse("'(1 2)"),
        Ok(vec![Expr::QExpr(Box::new(Expr::SExpr(vec![Expr::Num(1), Expr::Num(2)])))])
    );
    assert_eq!(LangParser::parse("'x"), Ok(vec![Expr::QExpr(Box::new(word("x")))]));
    assert_eq!(
        LangParser::parse("{1 2}"),
        Ok(vec![Expr::QExpr(Box::new(Expr::SExpr(vec![Expr::Num(1), Expr::Num(2)])))])
    );
    assert_eq!(
        LangParser::parse("''x"),
        Ok(vec![Expr::QExpr(Box::new(Expr::QExpr(Box::new(word("x")))))])
    );
}

#[test]
fn reads_empty_program() {
    assert_eq!(LangParser::parse(""), Ok(vec![]));
    assert_eq!(LangParser::parse("  \n\t "), Ok(vec![]));
}

#[test]
fn rejects_unbalanced_input() {
    assert_eq!(LangParser::parse("(a"), failed("unexpected end of input"));
    assert_eq!(LangParser::parse("(a (b)"), failed("unexpected end of input"));
    assert_eq!(LangParser::parse("{a"), failed("unexpected end of input"));
    assert_eq!(LangParser::parse(")"), failed("unexpected closing bracket"));
    assert_eq!(LangParser::parse("(a))"), failed("unexpected closing bracket"));
    assert_eq!(LangParser::parse("(a}"), failed("unexpected closing bracket"));
    assert_eq!(LangParser::parse("{a)"), failed("unexpected closing bracket"));
    assert_eq!(LangParser::parse("'"), failed("unexpected end of input"));
    assert_eq!(LangParser::parse("' x"), failed("expected an expression"));
}

#[test]
fn text_round_trips_through_rendering() {
    let source = "(define (f x) (if (< x 0) \"neg\" '(1 #t nil)))";
    let exprs = LangParser::parse(source).unwrap();
    assert_eq!(exprs.len(), 1);
    assert_eq!(exprs[0].to_string(), source);
    assert_eq!(LangParser::parse(&exprs[0].to_string()), Ok(exprs));
}

#[test]
fn chars_of_keeps_every_character() {
    assert_eq!(chars_of("aé("), vec!['a', 'é', '(']);
    assert_eq!(chars_of(""), Vec::<char>::new());
}

#[test]
fn eval_reads_a_program() {
    assert_eq!(lang::eval("(+ 1 2) x"), Ok(vec![
        Expr::SExpr(vec![word("+"), Expr::Num(1), Expr::Num(2)]),
        word("x"),
    ]));
    assert_eq!(lang::eval("("), failed("unexpected end of input"));
}

#[test]
fn run_reads_and_evaluates() {
    let mut env = Env::default();
    let results = lang::run("(define (f x) (+ x 1)) (f 5) (f) (f 1 2)", &mut env);
    assert_eq!(
        results,
        Ok(vec![
            Ok(word("f")),
            Ok(Expr::Num(6)),
            Err(LangError::InvalidArgsLen),
            Err(LangError::InvalidArgsLen),
        ])
    );
    assert_eq!(lang::run("(f 5", &mut env), Err(LangError::ParseFailed("unexpected end of input".to_string())));
    assert_eq!(lang::run("(f 41)", &mut env), Ok(vec![Ok(Expr::Num(42))]));
}

#[test]
fn run_scenarios_from_text() {
    let mut env = Env::default();
    let all = |text: &str, env: &mut Env| lang::run(text, env).unwrap();
    assert_eq!(all("(if #t 1 2) (if #f 1 2)", &mut env), vec![Ok(Expr::Num(1)), Ok(Expr::Num(2))]);
    assert_eq!(all("(if 1 1 2)", &mut env), vec![Err(LangError::TypeMismatched)]);
    assert_eq!(all("(cond (#f 1) (#f 2) (else 3))", &mut env), vec![Ok(Expr::Num(3))]);
    assert_eq!(all("(cond (#t 1) (#t 2))", &mut env), vec![Ok(Expr::Num(1))]);
    assert_eq!(all("(< 1 3 2) (< 1 2 3)", &mut env), vec![Ok(Expr::Bool(false)), Ok(Expr::Bool(true))]);
    assert_eq!(all("(/ 7 0)", &mut env), vec![Err(LangError::DivideByZero)]);
    assert_eq!(all("(car (list 1 2 3)) (cadr (list 1 2 3))", &mut env), vec![
        Ok(Expr::Num(1)),
        Ok(Expr::Num(2)),
    ]);
    assert_eq!(all("(car (list))", &mut env), vec![Err(LangError::InvalidArgsLen)]);
    assert_eq!(all("(++ \"a\" \"b\")", &mut env), vec![Ok(Expr::String("ab".to_string()))]);
    assert_eq!(all("(^ 2 10) (^ 2 3 2) (^ 5 0) (^ -1 3)", &mut env), vec![
        Ok(Expr::Num(1024)),
        Ok(Expr::Num(64)),
        Ok(Expr::Num(1)),
        Ok(Expr::Num(-1)),
    ]);
    assert_eq!(all("(+ 1 2 3 4 5 (- (* 2 2 (/ 9 3))))", &mut env), vec![Ok(Expr::Num(3))]);
    assert_eq!(all("((lambda (x y) (max x y)) 3 9)", &mut env), vec![Ok(Expr::Num(9))]);
    assert_eq!(all("(display (list 1 \"a\"))", &mut env), vec![Ok(Expr::Nil)]);
    assert_eq!(env.take_output(), "'(1 \"a\")");
}

#[test]
fn power_handles_edges() {
    assert_eq!(Builtin::Pow.call(&[Expr::Num(2), Expr::Num(62)]), Ok(Expr::Num(1 << 62)));
    assert_eq!(Builtin::Pow.call(&[Expr::Num(2), Expr::Num(63)]), Err(LangError::Overflow));
    assert_eq!(Builtin::Pow.call(&[Expr::Num(-2), Expr::Num(63)]), Ok(Expr::Num(i64::MIN)));
    assert_eq!(Builtin::Pow.call(&[Expr::Num(-2), Expr::Num(64)]), Err(LangError::Overflow));
    assert_eq!(Builtin::Pow.call(&[Expr::Num(3), Expr::Num(i64::MAX)]), Err(LangError::Overflow));
    assert_eq!(Builtin::Pow.call(&[Expr::Num(0), Expr::Num(i64::MAX)]), Ok(Expr::Num(0)));
    assert_eq!(Builtin::Pow.call(&[Expr::Num(0), Expr::Num(0)]), Ok(Expr::Num(1)));
    assert_eq!(Builtin::Pow.call(&[Expr::Num(1), Expr::Num(i64::MAX)]), Ok(Expr::Num(1)));
    assert_eq!(Builtin::Pow.call(&[Expr::Num(-1), Expr::Num(i64::MAX)]), Ok(Expr::Num(-1)));
    assert_eq!(Builtin::Pow.call(&[Expr::Num(-1), Expr::Num(4)]), Ok(Expr::Num(1)));
    assert_eq!(
        Builtin::Pow.call(&[Expr::Num(2), Expr::Num(-1)]),
        Err(LangError::Other("negative exponent".to_string()))
    );
    assert_eq!(Builtin::Pow.call(&[]), Err(LangError::InvalidArgsLen));
}
