//! The native functions: what each returns and writes on already
//! evaluated arguments, and their registration in the root scope.
//!
//! Numbers are 64-bit signed integers. Arithmetic never wraps: a result
//! that does not fit is an `Overflow`.
use crate::ast::{clone_list, lemma_s_expr_view, render, result_view, views, Expr, ExprView};
use crate::env::{Env, EnvView};
use crate::utils::{
    ensure, ints, pair_at, parse_list_of_floats, parse_list_of_strings, string_views,
};
use crate::{LangError, LangErrorView, LangResult};
use vstd::arithmetic::div_mod::lemma_mod_bound;
use vstd::prelude::*;

verus! {

/// The native functions of the language. A value of this type is the identity
/// of one native function; it carries no state.
#[derive(Debug, Clone, Copy, PartialEq, Eq, Structural)]
pub enum Builtin {
    Add,
    Sub,
    Mul,
    Div,
    Rem,
    Pow,
    Max,
    Min,
    Greater,
    Less,
    GreaterEq,
    LessEq,
    Equal,
    NotEqual,
    StringAppend,
    List,
    Car,
    Cdr,
    Cadr,
    Caddr,
    Cadddr,
    Begin,
    Display,
    Displayln,
    Println,
    Newline,
}

impl Builtin {
    /// The principal name under which this function is bound in the root scope.
    pub open spec fn name(self) -> Seq<char> {
        match self {
            Builtin::Add => "+"@,
            Builtin::Sub => "-"@,
            Builtin::Mul => "*"@,
            Builtin::Div => "/"@,
            Builtin::Rem => "%"@,
            Builtin::Pow => "^"@,
            Builtin::Max => "max"@,
            Builtin::Min => "min"@,
            Builtin::Greater => ">"@,
            Builtin::Less => "<"@,
            Builtin::GreaterEq => ">="@,
            Builtin::LessEq => "<="@,
            Builtin::Equal => "="@,
            Builtin::NotEqual => "!="@,
            Builtin::StringAppend => "string-append"@,
            Builtin::List => "list"@,
            Builtin::Car => "car"@,
            Builtin::Cdr => "cdr"@,
            Builtin::Cadr => "cadr"@,
            Builtin::Caddr => "caddr"@,
            Builtin::Cadddr => "cadddr"@,
            Builtin::Begin => "begin"@,
            Builtin::Display => "display"@,
            Builtin::Displayln => "displayln"@,
            Builtin::Println => "println"@,
            Builtin::Newline => "newline"@,
        }
    }

    /// The principal name under which this function is bound in the root scope.
    pub fn name_str(&self) -> (r: &'static str)
        ensures
            r@ == self.name(),
    {
        match self {
            Builtin::Add => "+",
            Builtin::Sub => "-",
            Builtin::Mul => "*",
            Builtin::Div => "/",
            Builtin::Rem => "%",
            Builtin::Pow => "^",
            Builtin::Max => "max",
            Builtin::Min => "min",
            Builtin::Greater => ">",
            Builtin::Less => "<",
            Builtin::GreaterEq => ">=",
            Builtin::LessEq => "<=",
            Builtin::Equal => "=",
            Builtin::NotEqual => "!=",
            Builtin::StringAppend => "string-append",
            Builtin::List => "list",
            Builtin::Car => "car",
            Builtin::Cdr => "cdr",
            Builtin::Cadr => "cadr",
            Builtin::Caddr => "caddr",
            Builtin::Cadddr => "cadddr",
            Builtin::Begin => "begin",
            Builtin::Display => "display",
            Builtin::Displayln => "displayln",
            Builtin::Println => "println",
            Builtin::Newline => "newline",
        }
    }
}

/// Whether an integer is a number of the language.
pub open spec fn fits(n: int) -> bool {
    i64::MIN <= n <= i64::MAX
}

/// `n` as a result: an overflow where it is no number of the language.
pub open spec fn checked(n: int) -> Result<int, LangErrorView> {
    if fits(n) {
        Ok(n)
    } else {
        Err(LangErrorView::Overflow)
    }
}

/// The quotient of `x` by `d`, rounded towards zero.
pub open spec fn trunc_div(x: int, d: int) -> int
    recommends
        d != 0,
{
    if x >= 0 && d > 0 {
        x / d
    } else if x < 0 && d < 0 {
        (-x) / (-d)
    } else if x < 0 {
        -((-x) / d)
    } else {
        -(x / (-d))
    }
}

/// The remainder of `x` by `d` that goes with `trunc_div`: it has the sign of `x`.
pub open spec fn trunc_rem(x: int, d: int) -> int
    recommends
        d != 0,
{
    if x >= 0 && d > 0 {
        x % d
    } else if x < 0 && d < 0 {
        -((-x) % (-d))
    } else if x < 0 {
        -((-x) % d)
    } else {
        x % (-d)
    }
}

/// Every argument is a number.
pub open spec fn all_nums(args: Seq<ExprView>) -> bool {
    forall|i: int| 0 <= i < args.len() ==> (#[trigger] args[i]) is Num
}

/// The numbers that the arguments hold.
pub open spec fn nums(args: Seq<ExprView>) -> Seq<int> {
    Seq::new(args.len(), |i: int| args[i]->Num_0)
}

/// Every argument is a string.
pub open spec fn all_strings(args: Seq<ExprView>) -> bool {
    forall|i: int| 0 <= i < args.len() ==> (#[trigger] args[i]) is String
}

/// The texts that the arguments hold.
pub open spec fn texts(args: Seq<ExprView>) -> Seq<Seq<char>> {
    Seq::new(args.len(), |i: int| args[i]->String_0)
}

/// The texts one after another.
pub open spec fn concat(parts: Seq<Seq<char>>) -> Seq<char>
    decreases parts.len(),
{
    if parts.len() == 0 {
        Seq::empty()
    } else {
        concat(parts.drop_last()) + parts.last()
    }
}

/// The sum of a list of integers.
pub open spec fn sum(xs: Seq<int>) -> int
    decreases xs.len(),
{
    if xs.len() == 0 {
        0
    } else {
        sum(xs.drop_last()) + xs.last()
    }
}

/// The product of a list of integers.
pub open spec fn product(xs: Seq<int>) -> int
    decreases xs.len(),
{
    if xs.len() == 0 {
        1
    } else {
        product(xs.drop_last()) * xs.last()
    }
}

/// One step of a reduction: the accumulated value `acc` combined with the
/// next operand `e`. Division and remainder fail on a zero operand, whatever
/// has been accumulated; a power fails on a negative exponent; a result
/// that is no number of the language is an overflow.
pub open spec fn step(op: Builtin, acc: int, e: int) -> Result<int, LangErrorView> {
    match op {
        Builtin::Add => checked(acc + e),
        Builtin::Mul => checked(acc * e),
        Builtin::Div => if e == 0 {
            Err(LangErrorView::DivideByZero)
        } else {
            checked(trunc_div(acc, e))
        },
        Builtin::Rem => if e == 0 {
            Err(LangErrorView::DivideByZero)
        } else {
            Ok(trunc_rem(acc, e))
        },
        Builtin::Pow => if e < 0 {
            Err(LangErrorView::Other("negative exponent"@))
        } else {
            checked(power_of(acc, e as nat))
        },
        Builtin::Max => Ok(if acc >= e {
            acc
        } else {
            e
        }),
        Builtin::Min => Ok(if acc <= e {
            acc
        } else {
            e
        }),
        _ => Ok(acc),
    }
}

/// The reduction of a non-empty list from the left: the first element, then
/// one step for each further element in order. The first step that fails
/// decides the result, and no later element is looked at.
pub open spec fn fold(op: Builtin, xs: Seq<int>) -> Result<int, LangErrorView>
    recommends
        xs.len() >= 1,
    decreases xs.len(),
{
    if xs.len() <= 1 {
        Ok(xs[0])
    } else {
        match fold(op, xs.drop_last()) {
            Ok(acc) => step(op, acc, xs.last()),
            Err(e) => Err(e),
        }
    }
}

/// What a reducing operator returns: a type mismatch where an argument is no
/// number, a length error on no arguments, else the reduction.
pub open spec fn reduce_spec(op: Builtin, args: Seq<ExprView>) -> Result<ExprView, LangErrorView> {
    if !all_nums(args) {
        Err(LangErrorView::TypeMismatched)
    } else if args.len() == 0 {
        Err(LangErrorView::InvalidArgsLen)
    } else {
        match fold(op, nums(args)) {
            Ok(n) => Ok(ExprView::Num(n)),
            Err(e) => Err(e),
        }
    }
}

/// What `-` returns: the negation of a single argument; of more, the first
/// less the sum of the others.
pub open spec fn sub_spec(args: Seq<ExprView>) -> Result<ExprView, LangErrorView> {
    if !all_nums(args) {
        Err(LangErrorView::TypeMismatched)
    } else if args.len() == 0 {
        Err(LangErrorView::InvalidArgsLen)
    } else if args.len() == 1 {
        match checked(-nums(args)[0]) {
            Ok(n) => Ok(ExprView::Num(n)),
            Err(e) => Err(e),
        }
    } else {
        match fold(Builtin::Add, nums(args).subrange(1, args.len() as int)) {
            Ok(rest) => match checked(nums(args)[0] - rest) {
                Ok(n) => Ok(ExprView::Num(n)),
                Err(e) => Err(e),
            },
            Err(e) => Err(e),
        }
    }
}

/// The relation that a comparison operator tests between two neighbours.
pub open spec fn related(op: Builtin, a: int, b: int) -> bool {
    match op {
        Builtin::Greater => a > b,
        Builtin::Less => a < b,
        Builtin::GreaterEq => a >= b,
        Builtin::LessEq => a <= b,
        _ => false,
    }
}

/// The relation holds between every two neighbours of the list.
pub open spec fn chain_holds(op: Builtin, xs: Seq<int>) -> bool {
    forall|i: int| 0 <= i < xs.len() - 1 ==> related(op, #[trigger] xs[i], xs[i + 1])
}

/// What a numeric comparison returns: a length error on fewer than two
/// arguments, a type mismatch where one is no number, else whether the
/// relation holds between every two neighbours.
pub open spec fn compare_spec(op: Builtin, args: Seq<ExprView>) -> Result<ExprView, LangErrorView> {
    if args.len() < 2 {
        Err(LangErrorView::InvalidArgsLen)
    } else if !all_nums(args) {
        Err(LangErrorView::TypeMismatched)
    } else {
        Ok(ExprView::Bool(chain_holds(op, nums(args))))
    }
}

/// Every two neighbours are the same value (`want`), or every two differ (`!want`).
pub open spec fn chain_same(args: Seq<ExprView>, want: bool) -> bool {
    forall|i: int| 0 <= i < args.len() - 1 ==> ((#[trigger] args[i] == args[i + 1]) == want)
}

/// What `=` (`want`) and `!=` (`!want`) return.
pub open spec fn equal_spec(args: Seq<ExprView>, want: bool) -> Result<ExprView, LangErrorView> {
    if args.len() < 2 {
        Err(LangErrorView::InvalidArgsLen)
    } else {
        Ok(ExprView::Bool(chain_same(args, want)))
    }
}

/// What `string-append` returns.
pub open spec fn append_spec(args: Seq<ExprView>) -> Result<ExprView, LangErrorView> {
    if !all_strings(args) {
        Err(LangErrorView::Other("expected a string"@))
    } else {
        Ok(ExprView::String(concat(texts(args))))
    }
}

/// What the accessor of position `n` returns: the element at `n` of the
/// list that the first argument quotes.
pub open spec fn nth_spec(args: Seq<ExprView>, n: nat) -> Result<ExprView, LangErrorView> {
    if args.len() >= 1 && args[0] is QExpr && *args[0]->QExpr_0 is SExpr && n < (
    *args[0]->QExpr_0)->SExpr_0.len() {
        Ok((*args[0]->QExpr_0)->SExpr_0[n as int])
    } else {
        Err(LangErrorView::InvalidArgsLen)
    }
}

/// The texts of the arguments one after another, with nothing between them.
pub open spec fn rendered(args: Seq<ExprView>) -> Seq<char>
    decreases args.len(),
{
    if args.len() == 0 {
        Seq::empty()
    } else {
        rendered(args.drop_last()) + render(args.last())
    }
}

impl Builtin {
    /// The position that a list accessor extracts.
    pub open spec fn position(self) -> nat {
        match self {
            Builtin::Car => 0,
            Builtin::Cdr => 1,
            Builtin::Cadr => 1,
            Builtin::Caddr => 2,
            Builtin::Cadddr => 3,
            _ => 0,
        }
    }

    /// What this function returns on already evaluated arguments.
    pub open spec fn call_spec(self, args: Seq<ExprView>) -> Result<ExprView, LangErrorView> {
        match self {
            Builtin::Add | Builtin::Mul | Builtin::Div | Builtin::Rem | Builtin::Pow | Builtin::Max
            | Builtin::Min => reduce_spec(
                self,
                args,
            ),
            Builtin::Sub => sub_spec(args),
            Builtin::Greater | Builtin::Less | Builtin::GreaterEq | Builtin::LessEq => compare_spec(
                self,
                args,
            ),
            Builtin::Equal => equal_spec(args, true),
            Builtin::NotEqual => equal_spec(args, false),
            Builtin::StringAppend => append_spec(args),
            Builtin::List => Ok(ExprView::QExpr(Box::new(ExprView::SExpr(args)))),
            Builtin::Car | Builtin::Cdr | Builtin::Cadr | Builtin::Caddr | Builtin::Cadddr => nth_spec(
                args,
                self.position(),
            ),
            Builtin::Begin => if args.len() == 0 {
                Err(LangErrorView::InvalidArgsLen)
            } else {
                Ok(args.last())
            },
            Builtin::Display | Builtin::Displayln | Builtin::Println => Ok(ExprView::Nil),
            Builtin::Newline => if args.len() == 0 {
                Ok(ExprView::Nil)
            } else {
                Err(LangErrorView::InvalidArgsLen)
            },
        }
    }

    /// What this function writes on already evaluated arguments.
    pub open spec fn output_spec(self, args: Seq<ExprView>) -> Seq<char> {
        match self {
            Builtin::Display => rendered(args),
            Builtin::Displayln | Builtin::Println => rendered(args) + "\n"@,
            Builtin::Newline => if args.len() == 0 {
                "\n"@
            } else {
                Seq::empty()
            },
            _ => Seq::empty(),
        }
    }
}

/// One step of a reduction on machine numbers.
fn apply_step(op: Builtin, acc: i64, e: i64) -> (r: Result<i64, LangError>)
    ensures
        match r {
            Ok(n) => step(op, acc as int, e as int) == Ok::<int, LangErrorView>(n as int),
            Err(err) => step(op, acc as int, e as int) == Err::<int, LangErrorView>(err@),
        },
{
    match op {
        Builtin::Add => match acc.checked_add(e) {
            Some(n) => Ok(n),
            None => Err(LangError::Overflow),
        },
        Builtin::Mul => match acc.checked_mul(e) {
            Some(n) => Ok(n),
            None => Err(LangError::Overflow),
        },
        Builtin::Div => if e == 0 {
            Err(LangError::DivideByZero)
        } else {
            match acc.checked_div(e) {
                Some(n) => Ok(n),
                None => Err(LangError::Overflow),
            }
        },
        Builtin::Rem => if e == 0 {
            Err(LangError::DivideByZero)
        } else if e == -1 {
            Ok(0)
        } else {
            proof {
                let x = acc as int;
                let d = e as int;
                if x >= 0 && d > 0 {
                    lemma_mod_bound(x, d);
                } else if x < 0 && d < 0 {
                    lemma_mod_bound(-x, -d);
                } else if x < 0 {
                    lemma_mod_bound(-x, d);
                } else {
                    lemma_mod_bound(x, -d);
                }
            }
            match acc.checked_rem(e) {
                Some(n) => Ok(n),
                None => Ok(0),
            }
        },
        Builtin::Pow => power(acc, e),
        Builtin::Max => Ok(if acc >= e {
            acc
        } else {
            e
        }),
        Builtin::Min => Ok(if acc <= e {
            acc
        } else {
            e
        }),
        _ => Ok(acc),
    }
}

/// `b` to the power of `e`.
pub open spec fn power_of(b: int, e: nat) -> int
    decreases e,
{
    if e == 0 {
        1
    } else {
        b * power_of(b, (e - 1) as nat)
    }
}

/// The positive powers of zero are zero, and the powers of one are one.
proof fn lemma_power_of_small(b: int, e: nat)
    requires
        b == 0 || b == 1,
    ensures
        power_of(b, e) == if e == 0 || b == 1 {
            1int
        } else {
            0int
        },
    decreases e,
{
    if e > 0 {
        lemma_power_of_small(b, (e - 1) as nat);
    }
}

/// The absolute value of an integer.
pub open spec fn abs(x: int) -> int {
    if x < 0 {
        -x
    } else {
        x
    }
}

/// The powers of a base of magnitude two or more at least double in
/// magnitude with each step of the exponent.
proof fn lemma_pow_grows(b: int, k: nat, n: nat)
    requires
        b >= 2 || b <= -2,
        k < n,
    ensures
        abs(power_of(b, n)) >= 2 * abs(power_of(b, k)),
        abs(power_of(b, k)) >= 1,
    decreases n,
{
    let prev = power_of(b, (n - 1) as nat);
    assert(power_of(b, n) == b * prev);
    assert(abs(b * prev) >= 2 * abs(prev)) by (nonlinear_arith)
        requires
            b >= 2 || b <= -2,
    ;
    if n - 1 > k {
        lemma_pow_grows(b, k, (n - 1) as nat);
    } else if k > 0 {
        lemma_pow_grows(b, (k - 1) as nat, k);
    } else {
        assert(power_of(b, 0) == 1);
    }
}

/// The powers of minus one alternate between one and minus one.
proof fn lemma_pow_minus_one(e: nat)
    ensures
        power_of(-1, e) == if e % 2 == 0 {
            1int
        } else {
            -1int
        },
    decreases e,
{
    if e > 0 {
        lemma_pow_minus_one((e - 1) as nat);
    }
}

/// `base` to the power of `exp`.
fn power(base: i64, exp: i64) -> (r: Result<i64, LangError>)
    ensures
        match r {
            Ok(n) => step(Builtin::Pow, base as int, exp as int) == Ok::<int, LangErrorView>(
                n as int,
            ),
            Err(err) => step(Builtin::Pow, base as int, exp as int) == Err::<int, LangErrorView>(
                err@,
            ),
        },
{
    if exp < 0 {
        return Err(LangError::Other(String::from_str("negative exponent")));
    }
    if exp == 0 {
        assert(power_of(base as int, 0) == 1);
        return Ok(1);
    }
    if base == 0 {
        proof {
            lemma_power_of_small(0, exp as nat);
        }
        return Ok(0);
    }
    if base == 1 {
        proof {
            lemma_power_of_small(1, exp as nat);
        }
        return Ok(1);
    }
    if base == -1 {
        proof {
            lemma_pow_minus_one(exp as nat);
        }
        return Ok(if exp % 2 == 0 {
            1
        } else {
            -1
        });
    }
    let mut acc: i64 = 1;
    let mut i: i64 = 0;
    assert(power_of(base as int, 0) == 1);
    while i < exp
        invariant
            0 <= i <= exp,
            base >= 2 || base <= -2,
            acc as int == power_of(base as int, i as nat),
        decreases exp - i,
    {
        assert(power_of(base as int, (i + 1) as nat) == base * power_of(base as int, i as nat));
        assert(acc * base == base * acc) by (nonlinear_arith);
        match acc.checked_mul(base) {
            Some(n) => {
                acc = n;
            },
            None => {
                proof {
                    if i + 1 < exp {
                        lemma_pow_grows(base as int, (i + 1) as nat, exp as nat);
                    }
                }
                return Err(LangError::Overflow);
            },
        }
        i += 1;
    }
    Ok(acc)
}

/// The reduction from the left of the numbers from position `start` on.
fn reduce_from(op: Builtin, xs: &Vec<i64>, start: usize) -> (r: Result<i64, LangError>)
    requires
        start < xs.len(),
    ensures
        match r {
            Ok(n) => fold(op, ints(xs@).subrange(start as int, xs.len() as int)) == Ok::<
                int,
                LangErrorView,
            >(n as int),
            Err(err) => fold(op, ints(xs@).subrange(start as int, xs.len() as int)) == Err::<
                int,
                LangErrorView,
            >(err@),
        },
{
    let ghost all = ints(xs@);
    let mut acc: i64 = xs[start];
    let mut i: usize = start + 1;
    assert(fold(op, all.subrange(start as int, i as int)) == Ok::<int, LangErrorView>(acc as int));
    while i < xs.len()
        invariant
            start < i <= xs.len(),
            all == ints(xs@),
            fold(op, all.subrange(start as int, i as int)) == Ok::<int, LangErrorView>(acc as int),
        decreases xs.len() - i,
    {
        let ghost upto = all.subrange(start as int, i + 1);
        proof {
            assert(upto.drop_last() =~= all.subrange(start as int, i as int));
            assert(upto.last() == xs[i as int] as int);
        }
        match apply_step(op, acc, xs[i]) {
            Ok(n) => {
                acc = n;
            },
            Err(e) => {
                proof {
                    assert(all.subrange(start as int, xs.len() as int).take(i + 1 - start)
                        =~= upto);
                    assert(fold(op, upto) == Err::<int, LangErrorView>(e@));
                    lemma_fold_fails(
                        op,
                        all.subrange(start as int, xs.len() as int),
                        i + 1 - start,
                    );
                }
                return Err(e);
            },
        }
        i += 1;
    }
    Ok(acc)
}

/// A reduction that has failed on the first `k` elements fails in the same
/// way on the whole list.
pub proof fn lemma_fold_fails(op: Builtin, xs: Seq<int>, k: int)
    requires
        1 <= k <= xs.len(),
        fold(op, xs.take(k)) is Err,
    ensures
        fold(op, xs) == fold(op, xs.take(k)),
    decreases xs.len(),
{
    if k < xs.len() {
        assert(xs.drop_last().take(k) =~= xs.take(k));
        lemma_fold_fails(op, xs.drop_last(), k);
    } else {
        assert(xs.take(k) =~= xs);
    }
}

/// The reduction of the arguments by one of `+ * / % ^ max min`.
pub fn reduce(op: Builtin, args: &[Expr]) -> (r: LangResult<Expr>)
    ensures
        result_view(r) == reduce_spec(op, views(args@)),
{
    let xs = match parse_list_of_floats(args) {
        Ok(xs) => xs,
        Err(e) => {
            return Err(e);
        },
    };
    proof {
        assert(ints(xs@).len() == xs.len());
        assert(nums(views(args@)).len() == args@.len());
    }
    if xs.len() == 0 {
        return Err(LangError::InvalidArgsLen);
    }
    assert(ints(xs@).subrange(0, xs.len() as int) =~= ints(xs@));
    match reduce_from(op, &xs, 0) {
        Ok(n) => Ok(Expr::Num(n)),
        Err(e) => Err(e),
    }
}

/// `-`: the negation of one argument; of more, the first less the sum of
/// the others.
pub fn subtract(args: &[Expr]) -> (r: LangResult<Expr>)
    ensures
        result_view(r) == sub_spec(views(args@)),
{
    let xs = match parse_list_of_floats(args) {
        Ok(xs) => xs,
        Err(e) => {
            return Err(e);
        },
    };
    proof {
        assert(ints(xs@).len() == xs.len());
        assert(nums(views(args@)).len() == args@.len());
    }
    if xs.len() == 0 {
        return Err(LangError::InvalidArgsLen);
    }
    let first: i64 = xs[0];
    assert(ints(xs@)[0] == first as int);
    if xs.len() == 1 {
        return match 0i64.checked_sub(first) {
            Some(n) => Ok(Expr::Num(n)),
            None => Err(LangError::Overflow),
        };
    }
    match reduce_from(Builtin::Add, &xs, 1) {
        Ok(rest) => match first.checked_sub(rest) {
            Some(n) => Ok(Expr::Num(n)),
            None => Err(LangError::Overflow),
        },
        Err(e) => Err(e),
    }
}

/// Whether `a` stands in the relation of `op` to `b`.
fn holds(op: Builtin, a: i64, b: i64) -> (r: bool)
    ensures
        r == related(op, a as int, b as int),
{
    match op {
        Builtin::Greater => a > b,
        Builtin::Less => a < b,
        Builtin::GreaterEq => a >= b,
        Builtin::LessEq => a <= b,
        _ => false,
    }
}

/// A chained numeric comparison by one of `> < >= <=`.
pub fn compare(op: Builtin, args: &[Expr]) -> (r: LangResult<Expr>)
    ensures
        result_view(r) == compare_spec(op, views(args@)),
{
    if args.len() <= 1 {
        return Err(LangError::InvalidArgsLen);
    }
    match parse_list_of_floats(args) {
        Ok(_) => {},
        Err(e) => {
            return Err(e);
        },
    }
    let test = |x: &Expr, y: &Expr| -> (b: bool)
        requires
            x is Num,
            y is Num,
        ensures
            b == related(op, x->Num_0 as int, y->Num_0 as int),
        {
            match (x, y) {
                (Expr::Num(a), Expr::Num(b)) => holds(op, *a, *b),
                _ => false,
            }
        };
    proof {
        assert forall|i: int| 0 <= i < args@.len() - 1 implies call_requires(
            test,
            #[trigger] pair_at(args@, i),
        ) by {
            assert(views(args@)[i] is Num);
            assert(views(args@)[i + 1] is Num);
        }
    }
    let r = ensure(args, test);
    proof {
        let xs = nums(views(args@));
        let b = r->Ok_0@->Bool_0;
        if b {
            assert forall|i: int| 0 <= i < xs.len() - 1 implies related(
                op,
                #[trigger] xs[i],
                xs[i + 1],
            ) by {
                assert(call_ensures(test, pair_at(args@, i), true));
                assert(views(args@)[i] is Num);
                assert(views(args@)[i + 1] is Num);
            }
        } else {
            let i = choose|i: int|
                0 <= i < args@.len() - 1 && call_ensures(test, #[trigger] pair_at(args@, i), false);
            assert(views(args@)[i] is Num);
            assert(views(args@)[i + 1] is Num);
            assert(!related(op, xs[i], xs[i + 1]));
        }
    }
    r
}

/// `=` (`want`) and `!=` (`!want`): whether every two neighbours are the
/// same value, or every two differ.
pub fn equal(args: &[Expr], want: bool) -> (r: LangResult<Expr>)
    ensures
        result_view(r) == equal_spec(views(args@), want),
{
    if args.len() <= 1 {
        return Err(LangError::InvalidArgsLen);
    }
    let test = |x: &Expr, y: &Expr| -> (b: bool)
        ensures
            b == ((x@ == y@) == want),
        { x.same(y) == want };
    let r = ensure(args, test);
    proof {
        let vs = views(args@);
        let b = r->Ok_0@->Bool_0;
        if b {
            assert forall|i: int| 0 <= i < vs.len() - 1 implies ((#[trigger] vs[i] == vs[i + 1])
                == want) by {
                assert(call_ensures(test, pair_at(args@, i), true));
            }
        } else {
            let i = choose|i: int|
                0 <= i < args@.len() - 1 && call_ensures(test, #[trigger] pair_at(args@, i), false);
            assert((vs[i] == vs[i + 1]) != want);
        }
    }
    r
}

/// `string-append`: the texts of the arguments one after another.
pub fn string_append(args: &[Expr]) -> (r: LangResult<Expr>)
    ensures
        result_view(r) == append_spec(views(args@)),
{
    let parts = match parse_list_of_strings(args) {
        Ok(parts) => parts,
        Err(e) => {
            return Err(e);
        },
    };
    let ghost all = string_views(parts@);
    let mut out = String::new();
    let mut i: usize = 0;
    assert(all.take(0) =~= Seq::empty());
    while i < parts.len()
        invariant
            i <= parts.len(),
            all == string_views(parts@),
            out@ == concat(all.take(i as int)),
        decreases parts.len() - i,
    {
        proof {
            assert(all.take(i + 1).drop_last() =~= all.take(i as int));
            assert(all.take(i + 1).last() == parts[i as int]@);
        }
        out.append(parts[i].as_str());
        i += 1;
    }
    assert(all.take(i as int) =~= all);
    Ok(Expr::String(out))
}

/// `list`: the arguments as a quoted list.
pub fn list(args: &[Expr]) -> (r: LangResult<Expr>)
    ensures
        result_view(r) == Builtin::List.call_spec(views(args@)),
{
    let items = clone_list(args);
    proof {
        lemma_s_expr_view(items);
    }
    Ok(Expr::QExpr(Box::new(Expr::SExpr(items))))
}

/// The element at position `n` of the list that the first argument quotes.
pub fn nth(args: &[Expr], n: usize) -> (r: LangResult<Expr>)
    ensures
        result_view(r) == nth_spec(views(args@), n as nat),
{
    if args.len() == 0 {
        return Err(LangError::InvalidArgsLen);
    }
    match &args[0] {
        Expr::QExpr(q) => match &**q {
            Expr::SExpr(items) => {
                proof {
                    lemma_s_expr_view(*items);
                    assert(views(args@)[0] == args@[0]@);
                }
                if n < items.len() {
                    Ok(items[n].clone())
                } else {
                    Err(LangError::InvalidArgsLen)
                }
            },
            _ => {
                assert(views(args@)[0] == args@[0]@);
                Err(LangError::InvalidArgsLen)
            },
        },
        _ => {
            assert(views(args@)[0] == args@[0]@);
            Err(LangError::InvalidArgsLen)
        },
    }
}

/// `begin`: the last argument.
pub fn begin(args: &[Expr]) -> (r: LangResult<Expr>)
    ensures
        result_view(r) == Builtin::Begin.call_spec(views(args@)),
{
    if args.len() == 0 {
        Err(LangError::InvalidArgsLen)
    } else {
        Ok(args[args.len() - 1].clone())
    }
}

/// The texts of the arguments one after another.
fn render_all(args: &[Expr]) -> (r: String)
    ensures
        r@ == rendered(views(args@)),
{
    let ghost all = views(args@);
    let mut out = String::new();
    let mut i: usize = 0;
    assert(all.take(0) =~= Seq::empty());
    while i < args.len()
        invariant
            i <= args.len(),
            all == views(args@),
            out@ == rendered(all.take(i as int)),
        decreases args.len() - i,
    {
        proof {
            assert(all.take(i + 1).drop_last() =~= all.take(i as int));
            assert(all.take(i + 1).last() == args[i as int]@);
        }
        let t = args[i].to_string();
        out.append(t.as_str());
        i += 1;
    }
    assert(all.take(i as int) =~= all);
    out
}

impl Builtin {
    /// The position that a list accessor extracts.
    pub fn index(&self) -> (n: usize)
        ensures
            n == self.position(),
    {
        match self {
            Builtin::Car => 0,
            Builtin::Cdr => 1,
            Builtin::Cadr => 1,
            Builtin::Caddr => 2,
            Builtin::Cadddr => 3,
            _ => 0,
        }
    }

    /// Applies this function to already evaluated arguments.
    pub fn call(&self, args: &[Expr]) -> (r: LangResult<Expr>)
        ensures
            result_view(r) == self.call_spec(views(args@)),
    {
        match self {
            Builtin::Add | Builtin::Mul | Builtin::Div | Builtin::Rem | Builtin::Pow | Builtin::Max
            | Builtin::Min => reduce(
                *self,
                args,
            ),
            Builtin::Sub => subtract(args),
            Builtin::Greater | Builtin::Less | Builtin::GreaterEq | Builtin::LessEq => compare(
                *self,
                args,
            ),
            Builtin::Equal => equal(args, true),
            Builtin::NotEqual => equal(args, false),
            Builtin::StringAppend => string_append(args),
            Builtin::List => list(args),
            Builtin::Car | Builtin::Cdr | Builtin::Cadr | Builtin::Caddr | Builtin::Cadddr => nth(
                args,
                self.index(),
            ),
            Builtin::Begin => begin(args),
            Builtin::Display | Builtin::Displayln | Builtin::Println => Ok(Expr::Nil),
            Builtin::Newline => if args.len() == 0 {
                Ok(Expr::Nil)
            } else {
                Err(LangError::InvalidArgsLen)
            },
        }
    }

    /// The text that this function writes on already evaluated arguments.
    pub fn written(&self, args: &[Expr]) -> (r: String)
        ensures
            r@ == self.output_spec(views(args@)),
    {
        match self {
            Builtin::Display => render_all(args),
            Builtin::Displayln | Builtin::Println => {
                let mut out = render_all(args);
                out.append("\n");
                out
            },
            Builtin::Newline => if args.len() == 0 {
                String::from_str("\n")
            } else {
                String::new()
            },
            _ => String::new(),
        }
    }
}

/// The environment with the string functions bound in its current scope.
pub open spec fn with_string(env: EnvView) -> EnvView {
    env
        .define("string-append"@, ExprView::Fn(Builtin::StringAppend))
        .define("++"@, ExprView::Fn(Builtin::StringAppend))
}

/// The environment with the list constructor and the positional accessors
/// bound in its current scope.
pub open spec fn with_list(env: EnvView) -> EnvView {
    env
        .define("list"@, ExprView::Fn(Builtin::List))
        .define("car"@, ExprView::Fn(Builtin::Car))
        .define("cdr"@, ExprView::Fn(Builtin::Cdr))
        .define("cadr"@, ExprView::Fn(Builtin::Cadr))
        .define("caddr"@, ExprView::Fn(Builtin::Caddr))
        .define("cadddr"@, ExprView::Fn(Builtin::Cadddr))
}

/// The environment with the chained numeric comparisons bound in its current scope.
pub open spec fn with_compare(env: EnvView) -> EnvView {
    env
        .define(">"@, ExprView::Fn(Builtin::Greater))
        .define("<"@, ExprView::Fn(Builtin::Less))
        .define(">="@, ExprView::Fn(Builtin::GreaterEq))
        .define("<="@, ExprView::Fn(Builtin::LessEq))
}

/// The environment with the chained tests of equality bound in its current scope.
pub open spec fn with_equal(env: EnvView) -> EnvView {
    env
        .define("="@, ExprView::Fn(Builtin::Equal))
        .define("!="@, ExprView::Fn(Builtin::NotEqual))
}

/// The environment with addition bound in its current scope.
pub open spec fn with_add(env: EnvView) -> EnvView {
    env
        .define("+"@, ExprView::Fn(Builtin::Add))
}

/// The environment with subtraction bound in its current scope.
pub open spec fn with_sub(env: EnvView) -> EnvView {
    env
        .define("-"@, ExprView::Fn(Builtin::Sub))
}

/// The environment with multiplication bound in its current scope.
pub open spec fn with_mul(env: EnvView) -> EnvView {
    env
        .define("*"@, ExprView::Fn(Builtin::Mul))
}

/// The environment with division, remainder and power bound in its current
/// scope.
pub open spec fn with_div(env: EnvView) -> EnvView {
    env
        .define("/"@, ExprView::Fn(Builtin::Div))
        .define("%"@, ExprView::Fn(Builtin::Rem))
        .define("^"@, ExprView::Fn(Builtin::Pow))
}

/// The environment with the functions that write bound in its current scope.
pub open spec fn with_io(env: EnvView) -> EnvView {
    env
        .define("display"@, ExprView::Fn(Builtin::Display))
        .define("displayln"@, ExprView::Fn(Builtin::Displayln))
        .define("println"@, ExprView::Fn(Builtin::Println))
        .define("newline"@, ExprView::Fn(Builtin::Newline))
}

/// The environment with sequencing and the extrema bound in its current scope.
pub open spec fn with_other(env: EnvView) -> EnvView {
    env
        .define("begin"@, ExprView::Fn(Builtin::Begin))
        .define("max"@, ExprView::Fn(Builtin::Max))
        .define("min"@, ExprView::Fn(Builtin::Min))
}

/// The environment with every native function bound in its current scope.
pub open spec fn with_std(env: EnvView) -> EnvView {
    with_other(
        with_io(
            with_div(
                with_mul(with_sub(with_add(with_equal(with_compare(with_list(with_string(env))))))),
            ),
        ),
    )
}

/// Binds every native function in the current scope.
pub fn define_std(env: &mut Env)
    requires
        old(env).wf(),
    ensures
        final(env).wf(),
        final(env)@ == with_std(old(env)@),
{
    define_string(env);
    define_list(env);
    define_compare(env);
    define_equal(env);
    define_add(env);
    define_sub(env);
    define_mul(env);
    define_div(env);
    define_io(env);
    define_other(env);
}

/// Binds the string functions in the current scope.
fn define_string(env: &mut Env)
    requires
        old(env).wf(),
    ensures
        final(env).wf(),
        final(env)@ == with_string(old(env)@),
{
    env.define(String::from_str("string-append"), Expr::Fn(Builtin::StringAppend));
    env.define(String::from_str("++"), Expr::Fn(Builtin::StringAppend));
}

/// Binds the list constructor and the positional accessors in the current scope.
fn define_list(env: &mut Env)
    requires
        old(env).wf(),
    ensures
        final(env).wf(),
        final(env)@ == with_list(old(env)@),
{
    env.define(String::from_str("list"), Expr::Fn(Builtin::List));
    env.define(String::from_str("car"), Expr::Fn(Builtin::Car));
    env.define(String::from_str("cdr"), Expr::Fn(Builtin::Cdr));
    env.define(String::from_str("cadr"), Expr::Fn(Builtin::Cadr));
    env.define(String::from_str("caddr"), Expr::Fn(Builtin::Caddr));
    env.define(String::from_str("cadddr"), Expr::Fn(Builtin::Cadddr));
}

/// Binds the chained numeric comparisons in the current scope.
fn define_compare(env: &mut Env)
    requires
        old(env).wf(),
    ensures
        final(env).wf(),
        final(env)@ == with_compare(old(env)@),
{
    env.define(String::from_str(">"), Expr::Fn(Builtin::Greater));
    env.define(String::from_str("<"), Expr::Fn(Builtin::Less));
    env.define(String::from_str(">="), Expr::Fn(Builtin::GreaterEq));
    env.define(String::from_str("<="), Expr::Fn(Builtin::LessEq));
}

/// Binds the chained tests of equality in the current scope.
fn define_equal(env: &mut Env)
    requires
        old(env).wf(),
    ensures
        final(env).wf(),
        final(env)@ == with_equal(old(env)@),
{
    env.define(String::from_str("="), Expr::Fn(Builtin::Equal));
    env.define(String::from_str("!="), Expr::Fn(Builtin::NotEqual));
}

/// Binds addition in the current scope.
fn define_add(env: &mut Env)
    requires
        old(env).wf(),
    ensures
        final(env).wf(),
        final(env)@ == with_add(old(env)@),
{
    env.define(String::from_str("+"), Expr::Fn(Builtin::Add));
}

/// Binds subtraction in the current scope.
fn define_sub(env: &mut Env)
    requires
        old(env).wf(),
    ensures
        final(env).wf(),
        final(env)@ == with_sub(old(env)@),
{
    env.define(String::from_str("-"), Expr::Fn(Builtin::Sub));
}

/// Binds multiplication in the current scope.
fn define_mul(env: &mut Env)
    requires
        old(env).wf(),
    ensures
        final(env).wf(),
        final(env)@ == with_mul(old(env)@),
{
    env.define(String::from_str("*"), Expr::Fn(Builtin::Mul));
}

/// Binds division, remainder and power in the current scope.
fn define_div(env: &mut Env)
    requires
        old(env).wf(),
    ensures
        final(env).wf(),
        final(env)@ == with_div(old(env)@),
{
    env.define(String::from_str("/"), Expr::Fn(Builtin::Div));
    env.define(String::from_str("%"), Expr::Fn(Builtin::Rem));
    env.define(String::from_str("^"), Expr::Fn(Builtin::Pow));
}

/// Binds the functions that write in the current scope.
fn define_io(env: &mut Env)
    requires
        old(env).wf(),
    ensures
        final(env).wf(),
        final(env)@ == with_io(old(env)@),
{
    env.define(String::from_str("display"), Expr::Fn(Builtin::Display));
    env.define(String::from_str("displayln"), Expr::Fn(Builtin::Displayln));
    env.define(String::from_str("println"), Expr::Fn(Builtin::Println));
    env.define(String::from_str("newline"), Expr::Fn(Builtin::Newline));
}

/// Binds sequencing and the extrema in the current scope.
fn define_other(env: &mut Env)
    requires
        old(env).wf(),
    ensures
        final(env).wf(),
        final(env)@ == with_other(old(env)@),
{
    env.define(String::from_str("begin"), Expr::Fn(Builtin::Begin));
    env.define(String::from_str("max"), Expr::Fn(Builtin::Max));
    env.define(String::from_str("min"), Expr::Fn(Builtin::Min));
}

/// Every non-empty prefix of the list has a sum that is a number of the language.
pub open spec fn prefix_sums_fit(xs: Seq<int>) -> bool {
    forall|k: int| 1 <= k <= xs.len() ==> fits(#[trigger] sum(xs.take(k)))
}

/// Every non-empty prefix of the list has a product that is a number of the language.
pub open spec fn prefix_products_fit(xs: Seq<int>) -> bool {
    forall|k: int| 1 <= k <= xs.len() ==> fits(#[trigger] product(xs.take(k)))
}

/// Addition reduces to the sum: where no partial sum overflows, `+` on a
/// non-empty list of numbers yields the sum of the list, taken from the left.
pub proof fn lemma_add_is_sum(args: Seq<ExprView>)
    requires
        args.len() >= 1,
        all_nums(args),
        prefix_sums_fit(nums(args)),
    ensures
        Builtin::Add.call_spec(args) == Ok::<ExprView, LangErrorView>(
            ExprView::Num(sum(nums(args))),
        ),
{
    lemma_fold_add(nums(args));
}

/// Multiplication reduces to the product: where no partial product
/// overflows, `*` on a non-empty list of numbers yields the product of the
/// list, taken from the left.
pub proof fn lemma_mul_is_product(args: Seq<ExprView>)
    requires
        args.len() >= 1,
        all_nums(args),
        prefix_products_fit(nums(args)),
    ensures
        Builtin::Mul.call_spec(args) == Ok::<ExprView, LangErrorView>(
            ExprView::Num(product(nums(args))),
        ),
{
    lemma_fold_mul(nums(args));
}

/// The reduction by `+` of a non-empty list whose partial sums all fit is its sum.
pub proof fn lemma_fold_add(xs: Seq<int>)
    requires
        xs.len() >= 1,
        prefix_sums_fit(xs),
    ensures
        fold(Builtin::Add, xs) == Ok::<int, LangErrorView>(sum(xs)),
    decreases xs.len(),
{
    assert(xs.take(xs.len() as int) =~= xs);
    if xs.len() == 1 {
        assert(xs.drop_last() =~= Seq::<int>::empty());
        assert(sum(xs) == sum(xs.drop_last()) + xs.last());
        assert(sum(xs.drop_last()) == 0);
    } else {
        let init = xs.drop_last();
        assert forall|k: int| 1 <= k <= init.len() implies fits(#[trigger] sum(init.take(k))) by {
            assert(init.take(k) =~= xs.take(k));
        }
        lemma_fold_add(init);
    }
}

/// The reduction by `*` of a non-empty list whose partial products all fit
/// is its product.
pub proof fn lemma_fold_mul(xs: Seq<int>)
    requires
        xs.len() >= 1,
        prefix_products_fit(xs),
    ensures
        fold(Builtin::Mul, xs) == Ok::<int, LangErrorView>(product(xs)),
    decreases xs.len(),
{
    assert(xs.take(xs.len() as int) =~= xs);
    if xs.len() == 1 {
        assert(xs.drop_last() =~= Seq::<int>::empty());
        assert(product(xs) == product(xs.drop_last()) * xs.last());
        assert(product(xs.drop_last()) == 1);
    } else {
        let init = xs.drop_last();
        assert forall|k: int| 1 <= k <= init.len() implies fits(
            #[trigger] product(init.take(k)),
        ) by {
            assert(init.take(k) =~= xs.take(k));
        }
        lemma_fold_mul(init);
    }
}

/// Division by zero always fails, regardless of the dividend: a step of `/`
/// whose right operand is zero is `DivideByZero` whatever has been
/// accumulated, and `(/ a 0)` is `DivideByZero` for every `a`.
pub proof fn lemma_divide_by_zero(a: int)
    ensures
        forall|acc: int| #[trigger]
            step(Builtin::Div, acc, 0) == Err::<int, LangErrorView>(LangErrorView::DivideByZero),
        Builtin::Div.call_spec(seq![ExprView::Num(a), ExprView::Num(0)]) == Err::<
            ExprView,
            LangErrorView,
        >(LangErrorView::DivideByZero),
{
    let pair = seq![ExprView::Num(a), ExprView::Num(0)];
    assert(all_nums(pair));
    let ns = nums(pair);
    assert(ns.drop_last().len() == 1);
    assert(fold(Builtin::Div, ns.drop_last()) == Ok::<int, LangErrorView>(a));
    assert(ns.last() == 0);
}

/// A division fails at the first zero divisor that it reaches: where the
/// reduction of the first `k` numbers has succeeded and the next number is
/// zero, the whole reduction is `DivideByZero`, whatever follows.
pub proof fn lemma_zero_divisor_fails(xs: Seq<int>, k: int)
    requires
        1 <= k < xs.len(),
        xs[k] == 0,
        fold(Builtin::Div, xs.take(k)) is Ok,
    ensures
        fold(Builtin::Div, xs) == Err::<int, LangErrorView>(LangErrorView::DivideByZero),
{
    let upto = xs.take(k + 1);
    assert(upto.drop_last() =~= xs.take(k));
    assert(upto.last() == 0);
    assert(fold(Builtin::Div, upto) == Err::<int, LangErrorView>(LangErrorView::DivideByZero));
    lemma_fold_fails(Builtin::Div, xs, k + 1);
}

/// A chained comparison tests every two neighbours, not the ends alone:
/// `(< a b c)` is true exactly when `a < b` and `b < c`.
pub proof fn lemma_less_of_three(a: int, b: int, c: int)
    ensures
        Builtin::Less.call_spec(seq![ExprView::Num(a), ExprView::Num(b), ExprView::Num(c)]) == Ok::<
            ExprView,
            LangErrorView,
        >(ExprView::Bool(a < b && b < c)),
{
    let args = seq![ExprView::Num(a), ExprView::Num(b), ExprView::Num(c)];
    let xs = nums(args);
    assert(all_nums(args));
    assert(xs[0] == a && xs[1] == b && xs[2] == c);
    if a < b && b < c {
        assert(chain_holds(Builtin::Less, xs));
    } else if !(a < b) {
        assert(!related(Builtin::Less, xs[0int], xs[0int + 1]));
    } else {
        assert(!related(Builtin::Less, xs[1int], xs[1int + 1]));
    }
}

/// Quoting: `list` wraps its arguments as they are, and an accessor applied
/// to what `list` made yields the argument at its position, or a length
/// error where there is none.
pub proof fn lemma_nth_of_list(f: Builtin, args: Seq<ExprView>)
    requires
        f == Builtin::Car || f == Builtin::Cdr || f == Builtin::Cadr || f == Builtin::Caddr || f
            == Builtin::Cadddr,
    ensures
        Builtin::List.call_spec(args) == Ok::<ExprView, LangErrorView>(
            ExprView::QExpr(Box::new(ExprView::SExpr(args))),
        ),
        f.call_spec(seq![Builtin::List.call_spec(args)->Ok_0]) == if f.position() < args.len() {
            Ok::<ExprView, LangErrorView>(args[f.position() as int])
        } else {
            Err::<ExprView, LangErrorView>(LangErrorView::InvalidArgsLen)
        },
{
}

} // verus!
