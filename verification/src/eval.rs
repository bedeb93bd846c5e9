//! The evaluator: the meaning of an expression in an environment, as a
//! function on mathematical values, and the executable evaluator that
//! computes it.
//!
//! A closure does not keep the environment that it was made in: its free
//! names are resolved in the chain of scopes of its caller.
use crate::ast::{clone_list, lemma_s_expr_view, render, result_view, views, Expr, ExprView, Lambda};
use crate::builtin::Builtin;
use crate::env::{bind, Env, EnvView};
use crate::utils::{parse_list_of_args, string_views};
use crate::{LangError, LangErrorView, LangResult};
use vstd::prelude::*;
use vstd::slice::slice_subrange;

verus! {

/// What evaluation leaves behind: its result, and the environment after it.
/// The environment counts also where the result is a failure: what was
/// defined or written before the failure stays.
pub type Outcome = (Result<ExprView, LangErrorView>, EnvView);

/// The special forms. Their operands are not evaluated before dispatch.
#[derive(Debug, Clone, Copy, PartialEq, Eq, Structural)]
pub enum Keyword {
    If,
    Cond,
    Define,
    Lambda,
}

/// The special form that a head expression names, if it names one.
pub open spec fn keyword_of(head: ExprView) -> Option<Keyword> {
    match head {
        ExprView::Symbol(s) => if s == "if"@ {
            Some(Keyword::If)
        } else if s == "cond"@ || s == "when"@ {
            Some(Keyword::Cond)
        } else if s == "define"@ || s == "def"@ {
            Some(Keyword::Define)
        } else if s == "lambda"@ || s == "fn"@ {
            Some(Keyword::Lambda)
        } else {
            None
        },
        _ => None,
    }
}

/// Every element is a symbol.
pub open spec fn all_symbols(items: Seq<ExprView>) -> bool {
    forall|i: int| 0 <= i < items.len() ==> (#[trigger] items[i]) is Symbol
}

/// The names that the symbols hold.
pub open spec fn symbol_names(items: Seq<ExprView>) -> Seq<Seq<char>> {
    Seq::new(items.len(), |i: int| items[i]->Symbol_0)
}

/// The parameter names that a parameter specification declares: the one
/// name of a symbol, or the names of a list of symbols.
pub open spec fn param_names(params: ExprView) -> Result<Seq<Seq<char>>, LangErrorView> {
    match params {
        ExprView::Symbol(s) => Ok(seq![s]),
        ExprView::SExpr(items) => if all_symbols(items) {
            Ok(symbol_names(items))
        } else {
            Err(LangErrorView::Other("expected a symbol"@))
        },
        _ => Err(LangErrorView::Unknown),
    }
}

/// What `lambda` returns on its unevaluated operands.
pub open spec fn eval_lambda_spec(args: Seq<ExprView>) -> Result<ExprView, LangErrorView> {
    if args.len() != 2 {
        Err(LangErrorView::InvalidArgsLen)
    } else {
        Ok(ExprView::Lambda(Box::new(args[0]), Box::new(args[1])))
    }
}

/// The evaluation of an expression in an environment, with applications
/// nested at most `fuel` deep.
pub open spec fn eval_spec(e: ExprView, env: EnvView, fuel: nat) -> Outcome
    decreases fuel, 0nat,
{
    match e {
        ExprView::Symbol(s) => (
            match env.lookup(s) {
                Some(v) => Ok(v),
                None => Err(LangErrorView::InvalidSymbol(s)),
            },
            env,
        ),
        ExprView::SExpr(items) => if fuel == 0 {
            (Err(LangErrorView::RecursionLimitExceeded), env)
        } else {
            eval_sexpr_spec(items, env, (fuel - 1) as nat)
        },
        _ => (Ok(e), env),
    }
}

/// The evaluation of a parenthesised sequence.
pub open spec fn eval_sexpr_spec(items: Seq<ExprView>, env: EnvView, fuel: nat) -> Outcome
    decreases fuel, items.len() + 4,
{
    if items.len() == 0 {
        (Ok(ExprView::Nil), env)
    } else {
        let args = items.subrange(1, items.len() as int);
        match keyword_of(items[0]) {
            Some(k) => eval_keyword_spec(k, args, env, fuel),
            None => {
                let (head, env1) = eval_spec(items[0], env, fuel);
                match head {
                    Err(e) => (Err(e), env1),
                    Ok(ExprView::Fn(b)) => call_builtin_spec(b, args, env1, fuel),
                    Ok(ExprView::Lambda(params, body)) => apply_spec(
                        *params,
                        *body,
                        args,
                        env1,
                        fuel,
                    ),
                    Ok(v) => if items.len() == 1 {
                        (Ok(v), env1)
                    } else {
                        (Err(LangErrorView::InvalidSymbol(render(v))), env1)
                    },
                }
            },
        }
    }
}

/// The evaluation of a special form on its unevaluated operands.
pub open spec fn eval_keyword_spec(
    k: Keyword,
    args: Seq<ExprView>,
    env: EnvView,
    fuel: nat,
) -> Outcome
    decreases fuel, args.len() + 3,
{
    match k {
        Keyword::If => eval_if_spec(args, env, fuel),
        Keyword::Cond => eval_cond_spec(args, env, fuel),
        Keyword::Define => eval_def_spec(args, env, fuel),
        Keyword::Lambda => (eval_lambda_spec(args), env),
    }
}

/// The evaluation of the arguments from left to right, each in the
/// environment that the one before it left. The first failure ends it.
pub open spec fn eval_args_spec(args: Seq<ExprView>, env: EnvView, fuel: nat) -> (
    Result<Seq<ExprView>, LangErrorView>,
    EnvView,
)
    decreases fuel, args.len() + 1,
{
    if args.len() == 0 {
        (Ok(Seq::empty()), env)
    } else {
        let (init, env1) = eval_args_spec(args.drop_last(), env, fuel);
        match init {
            Err(e) => (Err(e), env1),
            Ok(vals) => {
                let (last, env2) = eval_spec(args.last(), env1, fuel);
                match last {
                    Err(e) => (Err(e), env2),
                    Ok(v) => (Ok(vals.push(v)), env2),
                }
            },
        }
    }
}

/// What the call of a native function leaves behind: the arguments are
/// evaluated, the function is applied to their values, and what it writes
/// is appended to the output.
pub open spec fn call_builtin_spec(
    f: Builtin,
    args: Seq<ExprView>,
    env: EnvView,
    fuel: nat,
) -> Outcome
    decreases fuel, args.len() + 2,
{
    let (a, env1) = eval_args_spec(args, env, fuel);
    match a {
        Err(e) => (Err(e), env1),
        Ok(vals) => (f.call_spec(vals), env1.emit(f.output_spec(vals))),
    }
}

/// The environment in which a closure's body runs: the parameter names are
/// checked, the argument count is held against them, the arguments are
/// evaluated in the caller's environment, and a new scope binds each name
/// to its argument.
pub open spec fn child_spec(params: ExprView, args: Seq<ExprView>, env: EnvView, fuel: nat) -> (
    Result<(), LangErrorView>,
    EnvView,
)
    decreases fuel, args.len() + 2,
{
    match param_names(params) {
        Err(e) => (Err(e), env),
        Ok(names) => if names.len() != args.len() {
            (Err(LangErrorView::InvalidArgsLen), env)
        } else {
            let (a, env1) = eval_args_spec(args, env, fuel);
            match a {
                Err(e) => (Err(e), env1),
                Ok(vals) => (Ok(()), env1.push(bind(names, vals))),
            }
        },
    }
}

/// The application of a closure: its body is evaluated in the scope that
/// binds its parameters, and that scope is discarded afterwards.
pub open spec fn apply_spec(
    params: ExprView,
    body: ExprView,
    args: Seq<ExprView>,
    env: EnvView,
    fuel: nat,
) -> Outcome
    decreases fuel, args.len() + 3,
{
    let (c, env1) = child_spec(params, args, env, fuel);
    match c {
        Err(e) => (Err(e), env1),
        Ok(_) => {
            let (r, env2) = eval_spec(body, env1, fuel);
            (r, env2.pop())
        },
    }
}

/// `if`: exactly three operands; the condition must evaluate to a truth
/// value, and only the branch that it selects is evaluated.
pub open spec fn eval_if_spec(args: Seq<ExprView>, env: EnvView, fuel: nat) -> Outcome
    decreases fuel, 1nat,
{
    if args.len() != 3 {
        (Err(LangErrorView::InvalidArgsLen), env)
    } else {
        let (c, env1) = eval_spec(args[0], env, fuel);
        match c {
            Err(e) => (Err(e), env1),
            Ok(ExprView::Bool(b)) => eval_spec(
                if b {
                    args[1]
                } else {
                    args[2]
                },
                env1,
                fuel,
            ),
            Ok(_) => (Err(LangErrorView::TypeMismatched), env1),
        }
    }
}

/// `cond`: at least two operands, scanned in order.
pub open spec fn eval_cond_spec(args: Seq<ExprView>, env: EnvView, fuel: nat) -> Outcome
    decreases fuel, args.len() + 2,
{
    if args.len() < 2 {
        (Err(LangErrorView::InvalidArgsLen), env)
    } else {
        scan_spec(args, 0, env, fuel)
    }
}

/// The scan of the clauses of a `cond` from clause `i` on. A clause is a
/// list of a test and a result. The test `else` selects its clause
/// unconditionally; any other test is evaluated and must yield a truth
/// value; the first clause whose test holds gives the result, and no later
/// clause is looked at. When no clause is left the last operand is evaluated.
pub open spec fn scan_spec(clauses: Seq<ExprView>, i: nat, env: EnvView, fuel: nat) -> Outcome
    decreases fuel,
        (if i <= clauses.len() {
            clauses.len() - i + 1
        } else {
            1
        }),
{
    if i >= clauses.len() {
        eval_spec(clauses.last(), env, fuel)
    } else {
        match clauses[i as int] {
            ExprView::SExpr(c) => if c.len() != 2 {
                (Err(LangErrorView::InvalidArgsLen), env)
            } else if c[0] == ExprView::Symbol("else"@) {
                eval_spec(c[1], env, fuel)
            } else {
                let (t, env1) = eval_spec(c[0], env, fuel);
                match t {
                    Err(e) => (Err(e), env1),
                    Ok(ExprView::Bool(true)) => eval_spec(c[1], env1, fuel),
                    Ok(ExprView::Bool(false)) => scan_spec(clauses, i + 1, env1, fuel),
                    Ok(_) => (Err(LangErrorView::TypeMismatched), env1),
                }
            },
            _ => (Err(LangErrorView::Unsupported), env),
        }
    }
}

/// `define`: exactly two operands. A list as target defines a function: its
/// first element names it, the others are its parameters, and the second
/// operand is its body, unevaluated. Any other target must be a symbol, and
/// is bound to the value of the second operand. The result is the symbol.
pub open spec fn eval_def_spec(args: Seq<ExprView>, env: EnvView, fuel: nat) -> Outcome
    decreases fuel, 1nat,
{
    if args.len() != 2 {
        (Err(LangErrorView::InvalidArgsLen), env)
    } else {
        match args[0] {
            ExprView::SExpr(f) => if f.len() == 0 {
                (Err(LangErrorView::InvalidArgsLen), env)
            } else {
                match f[0] {
                    ExprView::Symbol(name) => (
                        Ok(f[0]),
                        env.define(
                            name,
                            ExprView::Lambda(
                                Box::new(ExprView::SExpr(f.subrange(1, f.len() as int))),
                                Box::new(args[1]),
                            ),
                        ),
                    ),
                    _ => (Err(LangErrorView::TypeMismatched), env),
                }
            },
            ExprView::Symbol(name) => {
                let (v, env1) = eval_spec(args[1], env, fuel);
                match v {
                    Err(e) => (Err(e), env1),
                    Ok(val) => (Ok(args[0]), env1.define(name, val)),
                }
            },
            _ => (Err(LangErrorView::TypeMismatched), env),
        }
    }
}

/// The depth of nested applications up to which `eval` follows a program.
pub const MAX_DEPTH: usize = 256;

/// Whether a name is the given word.
fn is_word(s: &String, word: &str) -> (b: bool)
    ensures
        b == (s@ == word@),
{
    *s == String::from_str(word)
}

/// The special form that a head expression names, if it names one.
pub fn keyword(head: &Expr) -> (r: Option<Keyword>)
    ensures
        r == keyword_of(head@),
{
    match head {
        Expr::Symbol(s) => if is_word(s, "if") {
            Some(Keyword::If)
        } else if is_word(s, "cond") || is_word(s, "when") {
            Some(Keyword::Cond)
        } else if is_word(s, "define") || is_word(s, "def") {
            Some(Keyword::Define)
        } else if is_word(s, "lambda") || is_word(s, "fn") {
            Some(Keyword::Lambda)
        } else {
            None
        },
        _ => None,
    }
}

/// A failure among the first `k` arguments is the failure of the whole list.
pub proof fn lemma_args_fail(args: Seq<ExprView>, env: EnvView, fuel: nat, k: int)
    requires
        0 <= k <= args.len(),
        eval_args_spec(args.take(k), env, fuel).0 is Err,
    ensures
        eval_args_spec(args, env, fuel) == eval_args_spec(args.take(k), env, fuel),
    decreases args.len(),
{
    if k < args.len() {
        assert(args.drop_last().take(k) =~= args.take(k));
        lemma_args_fail(args.drop_last(), env, fuel, k);
    } else {
        assert(args.take(k) =~= args);
    }
}

/// Evaluates an expression in an environment, with applications nested at
/// most `fuel` deep.
pub fn eval_within(expr: &Expr, env: &mut Env, fuel: usize) -> (r: LangResult<Expr>)
    requires
        old(env).wf(),
    ensures
        final(env).wf(),
        final(env)@.frames.len() == old(env)@.frames.len(),
        (result_view(r), final(env)@) == eval_spec(expr@, old(env)@, fuel as nat),
    decreases fuel, 0nat,
{
    match expr {
        Expr::Symbol(s) => match env.get(s) {
            Some(v) => Ok(v),
            None => Err(LangError::InvalidSymbol(s.clone())),
        },
        Expr::SExpr(items) => {
            proof {
                lemma_s_expr_view(*items);
            }
            if fuel == 0 {
                Err(LangError::RecursionLimitExceeded)
            } else {
                eval_sexpr_within(items.as_slice(), env, fuel - 1)
            }
        },
        _ => Ok(expr.clone()),
    }
}

/// Evaluates a parenthesised sequence.
pub fn eval_sexpr_within(s_expr: &[Expr], env: &mut Env, fuel: usize) -> (r: LangResult<Expr>)
    requires
        old(env).wf(),
    ensures
        final(env).wf(),
        final(env)@.frames.len() == old(env)@.frames.len(),
        (result_view(r), final(env)@) == eval_sexpr_spec(views(s_expr@), old(env)@, fuel as nat),
    decreases fuel, s_expr@.len() + 4,
{
    let len = s_expr.len();
    if len == 0 {
        return Ok(Expr::Nil);
    }
    let first = &s_expr[0];
    let args = slice_subrange(s_expr, 1, len);
    proof {
        assert(views(args@) =~= views(s_expr@).subrange(1, len as int));
        assert(views(s_expr@)[0] == first@);
    }
    match eval_keyword(first, args, env, fuel) {
        Some(result) => {
            return result;
        },
        None => {},
    }
    let first_eval = match eval_within(first, env, fuel) {
        Ok(v) => v,
        Err(e) => {
            return Err(e);
        },
    };
    match first_eval {
        Expr::Fn(f) => call_builtin(f, args, env, fuel),
        Expr::Lambda(lambda) => apply(&lambda, args, env, fuel),
        other => if len == 1 {
            Ok(other)
        } else {
            Err(LangError::InvalidSymbol(other.to_string()))
        },
    }
}

/// Calls a native function on the values of the arguments.
pub fn call_builtin(f: Builtin, args: &[Expr], env: &mut Env, fuel: usize) -> (r:
    LangResult<Expr>)
    requires
        old(env).wf(),
    ensures
        final(env).wf(),
        final(env)@.frames.len() == old(env)@.frames.len(),
        (result_view(r), final(env)@) == call_builtin_spec(
            f,
            views(args@),
            old(env)@,
            fuel as nat,
        ),
    decreases fuel, args@.len() + 2,
{
    let vals = match eval_args_within(args, env, fuel) {
        Ok(vals) => vals,
        Err(e) => {
            return Err(e);
        },
    };
    let text = f.written(vals.as_slice());
    env.emit(text.as_str());
    f.call(vals.as_slice())
}

/// Applies a closure to unevaluated arguments: its body is evaluated in a
/// new scope that binds its parameters, and that scope is discarded
/// afterwards.
pub fn apply(lambda: &Lambda, args: &[Expr], env: &mut Env, fuel: usize) -> (r: LangResult<Expr>)
    requires
        old(env).wf(),
    ensures
        final(env).wf(),
        final(env)@.frames.len() == old(env)@.frames.len(),
        (result_view(r), final(env)@) == apply_spec(
            lambda.params@,
            lambda.body@,
            views(args@),
            old(env)@,
            fuel as nat,
        ),
    decreases fuel, args@.len() + 3,
{
    proof {
        env.lemma_wf_has_root();
    }
    match child_env_for_lambda(&*lambda.params, args, env, fuel) {
        Ok(()) => {},
        Err(e) => {
            return Err(e);
        },
    }
    let r = eval_within(&*lambda.body, env, fuel);
    env.leave();
    r
}

/// Evaluates the arguments from left to right.
pub fn eval_args_within(args: &[Expr], env: &mut Env, fuel: usize) -> (r: LangResult<Vec<Expr>>)
    requires
        old(env).wf(),
    ensures
        final(env).wf(),
        final(env)@.frames.len() == old(env)@.frames.len(),
        match r {
            Ok(v) => eval_args_spec(views(args@), old(env)@, fuel as nat) == (
                Ok::<Seq<ExprView>, LangErrorView>(views(v@)),
                final(env)@,
            ),
            Err(e) => eval_args_spec(views(args@), old(env)@, fuel as nat) == (
                Err::<Seq<ExprView>, LangErrorView>(e@),
                final(env)@,
            ),
        },
    decreases fuel, args@.len() + 1,
{
    let ghost all = views(args@);
    let ghost env0 = env@;
    let mut out: Vec<Expr> = Vec::new();
    let mut i: usize = 0;
    proof {
        assert(all.take(0) =~= Seq::empty());
        assert(views(out@) =~= Seq::empty());
    }
    while i < args.len()
        invariant
            i <= args.len(),
            all == views(args@),
            env.wf(),
            env0 == old(env)@,
            env@.frames.len() == env0.frames.len(),
            eval_args_spec(all.take(i as int), env0, fuel as nat) == (
                Ok::<Seq<ExprView>, LangErrorView>(views(out@)),
                env@,
            ),
        decreases args.len() - i,
    {
        let ghost before = views(out@);
        proof {
            assert(all.take(i + 1).drop_last() =~= all.take(i as int));
            assert(all.take(i + 1).last() == args[i as int]@);
        }
        match eval_within(&args[i], env, fuel) {
            Ok(v) => {
                out.push(v);
                assert(views(out@) =~= before.push(v@));
            },
            Err(e) => {
                proof {
                    lemma_args_fail(all, env0, fuel as nat, i + 1);
                }
                return Err(e);
            },
        }
        i += 1;
    }
    assert(all.take(i as int) =~= all);
    Ok(out)
}

/// Opens the scope in which a closure's body runs: checks the parameter
/// names, holds the argument count against them, evaluates the arguments
/// in the caller's environment, and binds each name to its argument in a
/// new current scope. On failure no scope is opened.
pub fn child_env_for_lambda(params: &Expr, args: &[Expr], env: &mut Env, fuel: usize) -> (r:
    LangResult<()>)
    requires
        old(env).wf(),
    ensures
        final(env).wf(),
        final(env)@.frames.len() == old(env)@.frames.len() + (if r is Ok {
            1int
        } else {
            0int
        }),
        match r {
            Ok(_) => child_spec(params@, views(args@), old(env)@, fuel as nat) == (
                Ok::<(), LangErrorView>(()),
                final(env)@,
            ),
            Err(e) => child_spec(params@, views(args@), old(env)@, fuel as nat) == (
                Err::<(), LangErrorView>(e@),
                final(env)@,
            ),
        },
    decreases fuel, args@.len() + 2,
{
    let names = match parse_list_of_args(params) {
        Ok(names) => names,
        Err(e) => {
            return Err(e);
        },
    };
    proof {
        assert(string_views(names@).len() == names@.len());
        assert(views(args@).len() == args@.len());
    }
    if names.len() != args.len() {
        return Err(LangError::InvalidArgsLen);
    }
    let vals = match eval_args_within(args, env, fuel) {
        Ok(vals) => vals,
        Err(e) => {
            return Err(e);
        },
    };
    let ghost env1 = env@;
    let ghost ns = string_views(names@);
    let ghost vs = views(vals@);
    proof {
        // Evaluation yields one value for each argument.
        lemma_args_len(views(args@), old(env)@, fuel as nat);
    }
    env.extend();
    let mut i: usize = 0;
    proof {
        assert(ns.take(0) =~= Seq::empty());
    }
    while i < names.len()
        invariant
            i <= names.len(),
            names@.len() == vals@.len(),
            ns == string_views(names@),
            vs == views(vals@),
            env.wf(),
            env@ == env1.push(bind(ns.take(i as int), vs.take(i as int))),
        decreases names.len() - i,
    {
        proof {
            assert(ns.take(i + 1).drop_last() =~= ns.take(i as int));
            assert(vs.take(i + 1).drop_last() =~= vs.take(i as int));
            assert(ns.take(i + 1).last() == names[i as int]@);
            assert(vs.take(i + 1).last() == vals[i as int]@);
        }
        let ghost prev = env@;
        env.define(names[i].clone(), vals[i].clone());
        proof {
            assert(prev.frames.drop_last() =~= env1.frames);
            assert(env@.frames =~= env1.frames.push(bind(ns.take(i + 1), vs.take(i + 1))));
        }
        i += 1;
    }
    proof {
        assert(ns.take(i as int) =~= ns);
        assert(vs.take(i as int) =~= vs);
    }
    Ok(())
}

/// Successful evaluation of a list of arguments yields as many values.
pub proof fn lemma_args_len(args: Seq<ExprView>, env: EnvView, fuel: nat)
    ensures
        eval_args_spec(args, env, fuel).0 is Ok ==> eval_args_spec(args, env, fuel).0->Ok_0.len()
            == args.len(),
    decreases args.len(),
{
    if args.len() > 0 {
        lemma_args_len(args.drop_last(), env, fuel);
    }
}

/// Evaluates a special form, where `expr` names one, on its unevaluated
/// operands; where it names none, nothing happens.
pub fn eval_keyword(expr: &Expr, args: &[Expr], env: &mut Env, fuel: usize) -> (r: Option<
    LangResult<Expr>,
>)
    requires
        old(env).wf(),
    ensures
        final(env).wf(),
        final(env)@.frames.len() == old(env)@.frames.len(),
        match keyword_of(expr@) {
            Some(k) => r is Some && (result_view(r->Some_0), final(env)@) == eval_keyword_spec(
                k,
                views(args@),
                old(env)@,
                fuel as nat,
            ),
            None => r is None && final(env)@ == old(env)@,
        },
    decreases fuel, args@.len() + 3,
{
    match keyword(expr) {
        Some(Keyword::If) => Some(eval_if(args, env, fuel)),
        Some(Keyword::Cond) => Some(eval_cond(args, env, fuel)),
        Some(Keyword::Define) => Some(eval_def(args, env, fuel)),
        Some(Keyword::Lambda) => Some(eval_lambda(args)),
        None => None,
    }
}

/// `cond` on its unevaluated operands.
pub fn eval_cond(args: &[Expr], env: &mut Env, fuel: usize) -> (r: LangResult<Expr>)
    requires
        old(env).wf(),
    ensures
        final(env).wf(),
        final(env)@.frames.len() == old(env)@.frames.len(),
        (result_view(r), final(env)@) == eval_cond_spec(views(args@), old(env)@, fuel as nat),
    decreases fuel, args@.len() + 2,
{
    if args.len() < 2 {
        return Err(LangError::InvalidArgsLen);
    }
    let ghost all = views(args@);
    let ghost env0 = env@;
    let mut i: usize = 0;
    while i < args.len()
        invariant
            i <= args.len(),
            args@.len() >= 2,
            all == views(args@),
            env.wf(),
            env0 == old(env)@,
            env@.frames.len() == env0.frames.len(),
            scan_spec(all, 0, env0, fuel as nat) == scan_spec(all, i as nat, env@, fuel as nat),
        decreases args.len() - i,
    {
        assert(all[i as int] == args[i as int]@);
        match &args[i] {
            Expr::SExpr(clause) => {
                proof {
                    lemma_s_expr_view(*clause);
                }
                if clause.len() != 2 {
                    return Err(LangError::InvalidArgsLen);
                }
                assert(views(clause@)[0] == clause[0]@);
                assert(views(clause@)[1] == clause[1]@);
                let is_else = match &clause[0] {
                    Expr::Symbol(s) => is_word(s, "else"),
                    _ => false,
                };
                if is_else {
                    return eval_within(&clause[1], env, fuel);
                }
                match eval_within(&clause[0], env, fuel) {
                    Ok(Expr::Bool(true)) => {
                        return eval_within(&clause[1], env, fuel);
                    },
                    Ok(Expr::Bool(false)) => {},
                    Ok(_) => {
                        return Err(LangError::TypeMismatched);
                    },
                    Err(e) => {
                        return Err(e);
                    },
                }
            },
            _ => {
                return Err(LangError::Unsupported);
            },
        }
        i += 1;
    }
    let other = &args[args.len() - 1];
    assert(all.last() == other@);
    eval_within(other, env, fuel)
}

/// `lambda` on its unevaluated operands: a closure of the parameter
/// specification and the body, both as they stand.
pub fn eval_lambda(args: &[Expr]) -> (r: LangResult<Expr>)
    ensures
        result_view(r) == eval_lambda_spec(views(args@)),
{
    if args.len() != 2 {
        return Err(LangError::InvalidArgsLen);
    }
    assert(views(args@)[0] == args[0]@);
    assert(views(args@)[1] == args[1]@);
    Ok(Expr::Lambda(Lambda { params: Box::new(args[0].clone()), body: Box::new(args[1].clone()) }))
}

/// `if` on its unevaluated operands.
pub fn eval_if(args: &[Expr], env: &mut Env, fuel: usize) -> (r: LangResult<Expr>)
    requires
        old(env).wf(),
    ensures
        final(env).wf(),
        final(env)@.frames.len() == old(env)@.frames.len(),
        (result_view(r), final(env)@) == eval_if_spec(views(args@), old(env)@, fuel as nat),
    decreases fuel, 1nat,
{
    if args.len() != 3 {
        return Err(LangError::InvalidArgsLen);
    }
    assert(views(args@)[0] == args[0]@);
    assert(views(args@)[1] == args[1]@);
    assert(views(args@)[2] == args[2]@);
    let cond = match eval_within(&args[0], env, fuel) {
        Ok(c) => c,
        Err(e) => {
            return Err(e);
        },
    };
    let cond = match cond.inner_bool() {
        Ok(b) => *b,
        Err(e) => {
            return Err(e);
        },
    };
    let idx: usize = if cond {
        1
    } else {
        2
    };
    eval_within(&args[idx], env, fuel)
}

/// `define` on its unevaluated operands.
pub fn eval_def(args: &[Expr], env: &mut Env, fuel: usize) -> (r: LangResult<Expr>)
    requires
        old(env).wf(),
    ensures
        final(env).wf(),
        final(env)@.frames.len() == old(env)@.frames.len(),
        (result_view(r), final(env)@) == eval_def_spec(views(args@), old(env)@, fuel as nat),
    decreases fuel, 1nat,
{
    if args.len() != 2 {
        return Err(LangError::InvalidArgsLen);
    }
    assert(views(args@)[0] == args[0]@);
    assert(views(args@)[1] == args[1]@);
    if let Expr::SExpr(function) = &args[0] {
        proof {
            lemma_s_expr_view(*function);
        }
        if function.len() == 0 {
            return Err(LangError::InvalidArgsLen);
        }
        let symbol = &function[0];
        assert(views(function@)[0] == symbol@);
        let symbol_name = match symbol.inner_symbol() {
            Ok(s) => s.clone(),
            Err(e) => {
                return Err(e);
            },
        };
        let params = clone_list(slice_subrange(function.as_slice(), 1, function.len()));
        proof {
            lemma_s_expr_view(params);
            assert(views(params@) =~= views(function@).subrange(1, function@.len() as int));
        }
        let mut lambda: Vec<Expr> = Vec::new();
        lambda.push(Expr::SExpr(params));
        lambda.push(args[1].clone());
        assert(views(lambda@) =~= seq![lambda[0]@, lambda[1]@]);
        let lambda = match eval_lambda(lambda.as_slice()) {
            Ok(l) => l,
            Err(e) => {
                return Err(e);
            },
        };
        env.define(symbol_name, lambda);
        return Ok(symbol.clone());
    }
    let symbol = &args[0];
    let symbol_name = match symbol.inner_symbol() {
        Ok(s) => s.clone(),
        Err(e) => {
            return Err(e);
        },
    };
    let value = match eval_within(&args[1], env, fuel) {
        Ok(v) => v,
        Err(e) => {
            return Err(e);
        },
    };
    env.define(symbol_name, value);
    Ok(symbol.clone())
}

/// Evaluates an expression in an environment. Applications nested more
/// than `MAX_DEPTH` deep end in `RecursionLimitExceeded`.
pub fn eval(expr: &Expr, env: &mut Env) -> (r: LangResult<Expr>)
    requires
        old(env).wf(),
    ensures
        final(env).wf(),
        final(env)@.frames.len() == old(env)@.frames.len(),
        (result_view(r), final(env)@) == eval_spec(expr@, old(env)@, MAX_DEPTH as nat),
{
    eval_within(expr, env, MAX_DEPTH)
}

/// Evaluates a parenthesised sequence of expressions in an environment.
pub fn eval_sexpr(s_expr: &[Expr], env: &mut Env) -> (r: LangResult<Expr>)
    requires
        old(env).wf(),
    ensures
        final(env).wf(),
        final(env)@.frames.len() == old(env)@.frames.len(),
        (result_view(r), final(env)@) == eval_sexpr_spec(
            views(s_expr@),
            old(env)@,
            MAX_DEPTH as nat,
        ),
{
    eval_sexpr_within(s_expr, env, MAX_DEPTH)
}

/// Evaluates the arguments of a call from left to right, each in the
/// environment that the one before it left. The first failure ends it.
pub fn eval_args(args: &[Expr], env: &mut Env) -> (r: LangResult<Vec<Expr>>)
    requires
        old(env).wf(),
    ensures
        final(env).wf(),
        final(env)@.frames.len() == old(env)@.frames.len(),
        match r {
            Ok(v) => eval_args_spec(views(args@), old(env)@, MAX_DEPTH as nat) == (
                Ok::<Seq<ExprView>, LangErrorView>(views(v@)),
                final(env)@,
            ),
            Err(e) => eval_args_spec(views(args@), old(env)@, MAX_DEPTH as nat) == (
                Err::<Seq<ExprView>, LangErrorView>(e@),
                final(env)@,
            ),
        },
{
    eval_args_within(args, env, MAX_DEPTH)
}

/// The value of a sequence of results.
pub open spec fn result_views(rs: Seq<LangResult<Expr>>) -> Seq<Result<ExprView, LangErrorView>> {
    Seq::new(rs.len(), |i: int| result_view(rs[i]))
}

/// The evaluation of a program: its top-level expressions in order, each in
/// the environment that the one before it left, whether that one failed or
/// not, with one result for each.
pub open spec fn eval_all_spec(exprs: Seq<ExprView>, env: EnvView, fuel: nat) -> (
    Seq<Result<ExprView, LangErrorView>>,
    EnvView,
)
    decreases exprs.len(),
{
    if exprs.len() == 0 {
        (Seq::empty(), env)
    } else {
        let (init, env1) = eval_all_spec(exprs.drop_last(), env, fuel);
        let (last, env2) = eval_spec(exprs.last(), env1, fuel);
        (init.push(last), env2)
    }
}

/// Evaluates the top-level expressions of a program in order, and returns
/// one result for each. A failure does not stop the program: what follows
/// is evaluated in the environment that the failing expression left.
pub fn eval_all(exprs: &[Expr], env: &mut Env) -> (r: Vec<LangResult<Expr>>)
    requires
        old(env).wf(),
    ensures
        final(env).wf(),
        final(env)@.frames.len() == old(env)@.frames.len(),
        (result_views(r@), final(env)@) == eval_all_spec(
            views(exprs@),
            old(env)@,
            MAX_DEPTH as nat,
        ),
{
    let ghost all = views(exprs@);
    let ghost env0 = env@;
    let mut out: Vec<LangResult<Expr>> = Vec::new();
    let mut i: usize = 0;
    proof {
        assert(all.take(0) =~= Seq::empty());
        assert(result_views(out@) =~= Seq::empty());
    }
    while i < exprs.len()
        invariant
            i <= exprs.len(),
            all == views(exprs@),
            env.wf(),
            env@.frames.len() == env0.frames.len(),
            (result_views(out@), env@) == eval_all_spec(all.take(i as int), env0, MAX_DEPTH as nat),
        decreases exprs.len() - i,
    {
        let ghost before = result_views(out@);
        proof {
            assert(all.take(i + 1).drop_last() =~= all.take(i as int));
            assert(all.take(i + 1).last() == exprs[i as int]@);
        }
        let r = eval(&exprs[i], env);
        out.push(r);
        assert(result_views(out@) =~= before.push(result_view(r)));
        i += 1;
    }
    assert(all.take(i as int) =~= all);
    out
}

/// A closure takes exactly as many arguments as it has parameters: any
/// other number is a length error, no argument is evaluated, and the
/// environment stays as it was.
pub proof fn lemma_arity(
    params: ExprView,
    body: ExprView,
    args: Seq<ExprView>,
    env: EnvView,
    fuel: nat,
)
    requires
        param_names(params) is Ok,
        param_names(params)->Ok_0.len() != args.len(),
    ensures
        apply_spec(params, body, args, env, fuel) == (
            Err::<ExprView, LangErrorView>(LangErrorView::InvalidArgsLen),
            env,
        ),
{
}

/// A conditional evaluates the branch that its condition selects and never
/// the other: on a literal truth value, `if` is the evaluation of the
/// selected branch alone, and a condition that is a number is a type
/// mismatch that leaves the environment as it was.
pub proof fn lemma_if_selects(
    flag: bool,
    n: int,
    then: ExprView,
    other: ExprView,
    env: EnvView,
    fuel: nat,
)
    ensures
        eval_if_spec(seq![ExprView::Bool(flag), then, other], env, fuel) == eval_spec(
            if flag {
                then
            } else {
                other
            },
            env,
            fuel,
        ),
        eval_if_spec(seq![ExprView::Num(n), then, other], env, fuel) == (
            Err::<ExprView, LangErrorView>(LangErrorView::TypeMismatched),
            env,
        ),
{
}

/// In a `cond` the first clause whose test holds decides: a clause with a
/// false test is passed over, a clause with a true test or with `else`
/// yields the evaluation of its result, and no later clause is looked at.
pub proof fn lemma_cond_first_match(
    clauses: Seq<ExprView>,
    i: nat,
    result: ExprView,
    env: EnvView,
    fuel: nat,
)
    requires
        i < clauses.len(),
    ensures
        clauses[i as int] == ExprView::SExpr(seq![ExprView::Bool(false), result]) ==> scan_spec(
            clauses,
            i,
            env,
            fuel,
        ) == scan_spec(clauses, i + 1, env, fuel),
        clauses[i as int] == ExprView::SExpr(seq![ExprView::Bool(true), result]) ==> scan_spec(
            clauses,
            i,
            env,
            fuel,
        ) == eval_spec(result, env, fuel),
        clauses[i as int] == ExprView::SExpr(seq![ExprView::Symbol("else"@), result])
            ==> scan_spec(clauses, i, env, fuel) == eval_spec(result, env, fuel),
{
    if clauses[i as int] == ExprView::SExpr(seq![ExprView::Bool(false), result]) {
        let c = seq![ExprView::Bool(false), result];
        assert(c[0] != ExprView::Symbol("else"@));
        assert(eval_spec(c[0], env, fuel) == (Ok::<ExprView, LangErrorView>(c[0]), env));
        assert(c[1] == result);
    }
    if clauses[i as int] == ExprView::SExpr(seq![ExprView::Bool(true), result]) {
        let c = seq![ExprView::Bool(true), result];
        assert(c[0] != ExprView::Symbol("else"@));
        assert(eval_spec(c[0], env, fuel) == (Ok::<ExprView, LangErrorView>(c[0]), env));
        assert(c[1] == result);
    }
    if clauses[i as int] == ExprView::SExpr(seq![ExprView::Symbol("else"@), result]) {
        let c = seq![ExprView::Symbol("else"@), result];
        assert(c[0] == ExprView::Symbol("else"@));
        assert(c[1] == result);
    }
}

/// `after` has the scopes of `before`, but for what its current scope binds.
pub open spec fn same_enclosing(before: EnvView, after: EnvView) -> bool {
    &&& after.frames.len() == before.frames.len()
    &&& after.frames.drop_last() == before.frames.drop_last()
}

/// Evaluation is local to the current scope: it opens and discards no
/// scope for its caller, and whatever it defines, it leaves every
/// enclosing scope as it was.
pub proof fn lemma_eval_is_local(e: ExprView, env: EnvView, fuel: nat)
    requires
        env.frames.len() >= 1,
    ensures
        same_enclosing(env, eval_spec(e, env, fuel).1),
    decreases fuel, 0nat,
{
    match e {
        ExprView::SExpr(items) => {
            if fuel > 0 {
                lemma_sexpr_is_local(items, env, (fuel - 1) as nat);
            }
        },
        _ => {},
    }
}

/// The evaluation of a sequence is local to the current scope.
pub proof fn lemma_sexpr_is_local(items: Seq<ExprView>, env: EnvView, fuel: nat)
    requires
        env.frames.len() >= 1,
    ensures
        same_enclosing(env, eval_sexpr_spec(items, env, fuel).1),
    decreases fuel, items.len() + 4,
{
    if items.len() > 0 {
        let args = items.subrange(1, items.len() as int);
        match keyword_of(items[0]) {
            Some(Keyword::If) => {
                if args.len() == 3 {
                    lemma_eval_is_local(args[0], env, fuel);
                    let (c, env1) = eval_spec(args[0], env, fuel);
                    lemma_eval_is_local(args[1], env1, fuel);
                    lemma_eval_is_local(args[2], env1, fuel);
                }
                assert(same_enclosing(env, eval_if_spec(args, env, fuel).1));
            },
            Some(Keyword::Cond) => {
                if args.len() >= 2 {
                    lemma_scan_is_local(args, 0, env, fuel);
                }
                assert(same_enclosing(env, eval_cond_spec(args, env, fuel).1));
            },
            Some(Keyword::Define) => {
                if args.len() == 2 {
                    lemma_eval_is_local(args[1], env, fuel);
                    let env1 = eval_spec(args[1], env, fuel).1;
                    assert forall|name: Seq<char>, value: ExprView|
                        same_enclosing(env, #[trigger] env.define(name, value)) by {
                        assert(env.define(name, value).frames.drop_last()
                            =~= env.frames.drop_last());
                    }
                    assert forall|name: Seq<char>, value: ExprView|
                        same_enclosing(env, #[trigger] env1.define(name, value)) by {
                        assert(env1.define(name, value).frames.drop_last()
                            =~= env1.frames.drop_last());
                    }
                }
                assert(same_enclosing(env, eval_def_spec(args, env, fuel).1));
            },
            Some(Keyword::Lambda) => {},
            None => {
                lemma_eval_is_local(items[0], env, fuel);
                let (head, env1) = eval_spec(items[0], env, fuel);
                lemma_args_are_local(args, env1, fuel);
                match head {
                    Ok(ExprView::Lambda(params, body)) => {
                        lemma_apply_is_local(*params, *body, args, env1, fuel);
                    },
                    Ok(ExprView::Fn(b)) => {
                        assert(same_enclosing(env, call_builtin_spec(b, args, env1, fuel).1));
                    },
                    _ => {},
                }
            },
        }
    }
}

/// The application of a closure is local to the caller's current scope,
/// and more: the scope that it opens is the scope that it discards, so what
/// its body defines is gone afterwards, and the caller's scopes are exactly
/// those that the evaluation of the arguments left.
pub proof fn lemma_apply_is_local(
    params: ExprView,
    body: ExprView,
    args: Seq<ExprView>,
    env: EnvView,
    fuel: nat,
)
    requires
        env.frames.len() >= 1,
    ensures
        same_enclosing(env, apply_spec(params, body, args, env, fuel).1),
        child_spec(params, args, env, fuel).0 is Ok ==> apply_spec(
            params,
            body,
            args,
            env,
            fuel,
        ).1.frames == eval_args_spec(args, env, fuel).1.frames,
    decreases fuel, args.len() + 3,
{
    lemma_args_are_local(args, env, fuel);
    let (c, child) = child_spec(params, args, env, fuel);
    match c {
        Ok(_) => {
            let env1 = eval_args_spec(args, env, fuel).1;
            assert(child.frames.drop_last() =~= env1.frames);
            lemma_eval_is_local(body, child, fuel);
        },
        Err(_) => {},
    }
}

/// The evaluation of arguments is local to the current scope.
pub proof fn lemma_args_are_local(args: Seq<ExprView>, env: EnvView, fuel: nat)
    requires
        env.frames.len() >= 1,
    ensures
        same_enclosing(env, eval_args_spec(args, env, fuel).1),
    decreases fuel, args.len() + 1,
{
    if args.len() > 0 {
        lemma_args_are_local(args.drop_last(), env, fuel);
        let (init, env1) = eval_args_spec(args.drop_last(), env, fuel);
        lemma_eval_is_local(args.last(), env1, fuel);
    }
}

/// The scan of the clauses of a `cond` is local to the current scope.
pub proof fn lemma_scan_is_local(clauses: Seq<ExprView>, i: nat, env: EnvView, fuel: nat)
    requires
        env.frames.len() >= 1,
        clauses.len() >= 1,
    ensures
        same_enclosing(env, scan_spec(clauses, i, env, fuel).1),
    decreases fuel,
        (if i <= clauses.len() {
            clauses.len() - i + 1
        } else {
            1
        }),
{
    if i >= clauses.len() {
        lemma_eval_is_local(clauses.last(), env, fuel);
    } else {
        match clauses[i as int] {
            ExprView::SExpr(c) => {
                if c.len() == 2 {
                    lemma_eval_is_local(c[1], env, fuel);
                    lemma_eval_is_local(c[0], env, fuel);
                    let (t, env1) = eval_spec(c[0], env, fuel);
                    lemma_eval_is_local(c[1], env1, fuel);
                    lemma_scan_is_local(clauses, i + 1, env1, fuel);
                }
            },
            _ => {},
        }
    }
}

/// Function definition: `(define (f p...) body)` binds `f` in the current
/// scope to the closure of the parameters and the body, unevaluated, and
/// yields the symbol `f`; afterwards `f` resolves to that closure.
pub proof fn lemma_define_function(
    f: Seq<char>,
    params: Seq<ExprView>,
    body: ExprView,
    env: EnvView,
    fuel: nat,
)
    requires
        env.frames.len() >= 1,
    ensures
        eval_def_spec(seq![ExprView::SExpr(seq![ExprView::Symbol(f)] + params), body], env, fuel)
            == (
            Ok::<ExprView, LangErrorView>(ExprView::Symbol(f)),
            env.define(
                f,
                ExprView::Lambda(Box::new(ExprView::SExpr(params)), Box::new(body)),
            ),
        ),
        env.define(
            f,
            ExprView::Lambda(Box::new(ExprView::SExpr(params)), Box::new(body)),
        ).lookup(f) == Some(ExprView::Lambda(Box::new(ExprView::SExpr(params)), Box::new(body))),
{
    let target = seq![ExprView::Symbol(f)] + params;
    assert(target[0] == ExprView::Symbol(f));
    assert(target.subrange(1, target.len() as int) =~= params);
}

} // verus!
