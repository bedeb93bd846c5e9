//! The expression model: one type for every piece of source and every
//! runtime value, its mathematical value, its text, and the typed accessors
//! that take a variant's payload out.
use crate::builtin::Builtin;
use crate::{LangError, LangErrorView, LangResult};
use vstd::prelude::*;

verus! {

/// An expression of the language: a piece of source and a runtime value alike.
#[derive(Debug, PartialEq)]
pub enum Expr {
    Nil,
    Num(i64),
    String(String),
    Bool(bool),
    /// A quoted expression: data that evaluation leaves alone.
    QExpr(Box<Expr>),
    /// A parenthesised sequence: a call or, before evaluation, a literal list.
    SExpr(Vec<Expr>),
    Symbol(String),
    /// A native function.
    Fn(Builtin),
    /// A user-defined function.
    Lambda(Lambda),
}

/// The variant of an expression, without its payload.
#[derive(Debug, Copy, Clone, PartialEq, Eq, Structural)]
pub enum ExprType {
    Nil,
    Num,
    String,
    Bool,
    QExpr,
    SExpr,
    Symbol,
    Fn,
    Lambda,
}

/// A user-defined function: a parameter specification (one symbol or a list
/// of symbols) and a body, both unevaluated.
#[derive(Debug, PartialEq)]
pub struct Lambda {
    pub params: Box<Expr>,
    pub body: Box<Expr>,
}

/// The mathematical value of an expression.
pub enum ExprView {
    Nil,
    Num(int),
    String(Seq<char>),
    Bool(bool),
    QExpr(Box<ExprView>),
    SExpr(Seq<ExprView>),
    Symbol(Seq<char>),
    Fn(Builtin),
    Lambda(Box<ExprView>, Box<ExprView>),
}

impl Expr {
    /// The value of an expression, by recursion on its structure.
    pub open spec fn model(self) -> ExprView
        decreases self,
    {
        match self {
            Expr::Nil => ExprView::Nil,
            Expr::Num(n) => ExprView::Num(n as int),
            Expr::String(s) => ExprView::String(s@),
            Expr::Bool(b) => ExprView::Bool(b),
            Expr::QExpr(q) => ExprView::QExpr(Box::new((*q).model())),
            Expr::SExpr(v) => ExprView::SExpr(
                Seq::new(
                    v@.len(),
                    |i: int|
                        if 0 <= i < v@.len() {
                            v@[i].model()
                        } else {
                            ExprView::Nil
                        },
                ),
            ),
            Expr::Symbol(s) => ExprView::Symbol(s@),
            Expr::Fn(b) => ExprView::Fn(b),
            Expr::Lambda(l) => ExprView::Lambda(
                Box::new((*l.params).model()),
                Box::new((*l.body).model()),
            ),
        }
    }
}

impl View for Expr {
    type V = ExprView;

    open spec fn view(&self) -> ExprView {
        self.model()
    }
}

/// The values of a sequence of expressions, element by element.
pub open spec fn views(s: Seq<Expr>) -> Seq<ExprView> {
    Seq::new(s.len(), |i: int| s[i]@)
}

/// The value of a result that holds an expression.
pub open spec fn result_view(r: LangResult<Expr>) -> Result<ExprView, LangErrorView> {
    match r {
        Ok(e) => Ok(e@),
        Err(e) => Err(e@),
    }
}

/// A list expression's value is the list of its elements' values.
pub broadcast proof fn lemma_s_expr_view(v: Vec<Expr>)
    ensures
        #[trigger] Expr::SExpr(v)@ == ExprView::SExpr(views(v@)),
{
    assert(Expr::SExpr(v)@->SExpr_0 =~= views(v@));
}

impl Clone for Expr {
    fn clone(&self) -> (r: Self)
        ensures
            r@ == self@,
        decreases self,
    {
        match self {
            Expr::Nil => Expr::Nil,
            Expr::Num(n) => Expr::Num(*n),
            Expr::String(s) => Expr::String(s.clone()),
            Expr::Bool(b) => Expr::Bool(*b),
            Expr::QExpr(q) => Expr::QExpr(Box::new((**q).clone())),
            Expr::SExpr(v) => {
                let mut out: Vec<Expr> = Vec::new();
                let mut i: usize = 0;
                while i < v.len()
                    invariant
                        i <= v.len(),
                        self is SExpr,
                        self->SExpr_0 == *v,
                        out.len() == i,
                        forall|j: int| 0 <= j < i ==> out[j]@ == v[j]@,
                    decreases v.len() - i,
                {
                    proof {
                        assert(decreases_to!(*v => v[i as int]));
                        assert(decreases_to!(*self => self->SExpr_0));
                    }
                    let c = v[i].clone();
                    out.push(c);
                    i += 1;
                }
                proof {
                    assert(views(out@) =~= views(v@));
                    lemma_s_expr_view(out);
                    lemma_s_expr_view(*v);
                }
                Expr::SExpr(out)
            },
            Expr::Symbol(s) => Expr::Symbol(s.clone()),
            Expr::Fn(b) => Expr::Fn(*b),
            Expr::Lambda(l) => {
                let params = (*l.params).clone();
                let body = (*l.body).clone();
                Expr::Lambda(Lambda { params: Box::new(params), body: Box::new(body) })
            },
        }
    }
}

impl Clone for Lambda {
    fn clone(&self) -> (r: Self)
        ensures
            r.params@ == self.params@,
            r.body@ == self.body@,
    {
        Lambda { params: Box::new((*self.params).clone()), body: Box::new((*self.body).clone()) }
    }
}

/// A copy of a list of expressions, with the same values.
pub fn clone_list(v: &[Expr]) -> (r: Vec<Expr>)
    ensures
        views(r@) == views(v@),
{
    let mut out: Vec<Expr> = Vec::new();
    let mut i: usize = 0;
    while i < v.len()
        invariant
            i <= v.len(),
            out.len() == i,
            forall|j: int| 0 <= j < i ==> out[j]@ == v[j]@,
        decreases v.len() - i,
    {
        out.push(v[i].clone());
        i += 1;
    }
    assert(views(out@) =~= views(v@));
    out
}

impl ExprView {
    /// The variant of this value.
    pub open spec fn type_of(self) -> ExprType {
        match self {
            ExprView::Nil => ExprType::Nil,
            ExprView::Num(_) => ExprType::Num,
            ExprView::String(_) => ExprType::String,
            ExprView::Bool(_) => ExprType::Bool,
            ExprView::QExpr(_) => ExprType::QExpr,
            ExprView::SExpr(_) => ExprType::SExpr,
            ExprView::Symbol(_) => ExprType::Symbol,
            ExprView::Fn(_) => ExprType::Fn,
            ExprView::Lambda(_, _) => ExprType::Lambda,
        }
    }
}

impl Expr {
    /// The variant of this expression.
    pub fn expr_type(&self) -> (t: ExprType)
        ensures
            t == self@.type_of(),
    {
        match self {
            Expr::Nil => ExprType::Nil,
            Expr::Num(_) => ExprType::Num,
            Expr::String(_) => ExprType::String,
            Expr::Bool(_) => ExprType::Bool,
            Expr::QExpr(_) => ExprType::QExpr,
            Expr::SExpr(_) => ExprType::SExpr,
            Expr::Symbol(_) => ExprType::Symbol,
            Expr::Fn(_) => ExprType::Fn,
            Expr::Lambda(_) => ExprType::Lambda,
        }
    }

    /// The number that a `Num` holds; any other variant is a type mismatch.
    pub fn inner_num(&self) -> (r: LangResult<&i64>)
        ensures
            match r {
                Ok(n) => *self == Expr::Num(*n),
                Err(e) => !(self is Num) && e == LangError::TypeMismatched,
            },
    {
        match self {
            Expr::Num(n) => Ok(n),
            _ => Err(LangError::TypeMismatched),
        }
    }

    /// The text that a `String` holds; any other variant is a type mismatch.
    pub fn inner_string(&self) -> (r: LangResult<&String>)
        ensures
            match r {
                Ok(s) => *self == Expr::String(*s),
                Err(e) => !(self is String) && e == LangError::TypeMismatched,
            },
    {
        match self {
            Expr::String(s) => Ok(s),
            _ => Err(LangError::TypeMismatched),
        }
    }

    /// The truth value that a `Bool` holds; any other variant is a type mismatch.
    pub fn inner_bool(&self) -> (r: LangResult<&bool>)
        ensures
            match r {
                Ok(b) => *self == Expr::Bool(*b),
                Err(e) => !(self is Bool) && e == LangError::TypeMismatched,
            },
    {
        match self {
            Expr::Bool(b) => Ok(b),
            _ => Err(LangError::TypeMismatched),
        }
    }

    /// The expression that a `QExpr` quotes; any other variant is a type mismatch.
    pub fn inner_q_expr(&self) -> (r: LangResult<&Box<Expr>>)
        ensures
            match r {
                Ok(q) => *self == Expr::QExpr(*q),
                Err(e) => !(self is QExpr) && e == LangError::TypeMismatched,
            },
    {
        match self {
            Expr::QExpr(q) => Ok(q),
            _ => Err(LangError::TypeMismatched),
        }
    }

    /// The elements of an `SExpr`; any other variant is a type mismatch.
    pub fn inner_s_expr(&self) -> (r: LangResult<&Vec<Expr>>)
        ensures
            match r {
                Ok(v) => *self == Expr::SExpr(*v),
                Err(e) => !(self is SExpr) && e == LangError::TypeMismatched,
            },
    {
        match self {
            Expr::SExpr(v) => Ok(v),
            _ => Err(LangError::TypeMismatched),
        }
    }

    /// The name that a `Symbol` holds; any other variant is a type mismatch.
    pub fn inner_symbol(&self) -> (r: LangResult<&String>)
        ensures
            match r {
                Ok(s) => *self == Expr::Symbol(*s),
                Err(e) => !(self is Symbol) && e == LangError::TypeMismatched,
            },
    {
        match self {
            Expr::Symbol(s) => Ok(s),
            _ => Err(LangError::TypeMismatched),
        }
    }
}

/// The text of one decimal digit.
pub open spec fn digit_text(d: int) -> Seq<char> {
    if d == 0 {
        "0"@
    } else if d == 1 {
        "1"@
    } else if d == 2 {
        "2"@
    } else if d == 3 {
        "3"@
    } else if d == 4 {
        "4"@
    } else if d == 5 {
        "5"@
    } else if d == 6 {
        "6"@
    } else if d == 7 {
        "7"@
    } else if d == 8 {
        "8"@
    } else {
        "9"@
    }
}

/// The decimal text of a natural number, without leading zeros.
pub open spec fn nat_text(n: nat) -> Seq<char>
    decreases n,
{
    if n < 10 {
        digit_text(n as int)
    } else {
        nat_text(n / 10) + digit_text((n % 10) as int)
    }
}

/// The decimal text of an integer, with a minus sign where it is negative.
pub open spec fn int_text(n: int) -> Seq<char> {
    if n < 0 {
        "-"@ + nat_text((-n) as nat)
    } else {
        nat_text(n as nat)
    }
}

/// The text of an expression: lists in parentheses with single spaces between
/// their elements, quoted expressions behind a quote mark, strings in double
/// quotes, truth values as `#t` and `#f`.
pub open spec fn render(e: ExprView) -> Seq<char>
    decreases e, 0nat,
{
    match e {
        ExprView::Nil => "nil"@,
        ExprView::Symbol(s) => s,
        ExprView::Num(n) => int_text(n),
        ExprView::String(s) => "\""@ + s + "\""@,
        ExprView::Bool(b) => if b {
            "#t"@
        } else {
            "#f"@
        },
        ExprView::SExpr(items) => "("@ + render_joined(items, items.len()) + ")"@,
        ExprView::QExpr(q) => "'"@ + render(*q),
        ExprView::Fn(b) => "Function: "@ + b.name(),
        ExprView::Lambda(params, body) => "Lambda: params: "@ + render(*params) + " body: "@
            + render(*body),
    }
}

/// The texts of the first `n` elements of `items`, with one space between
/// each two.
pub open spec fn render_joined(items: Seq<ExprView>, n: nat) -> Seq<char>
    decreases items, n,
{
    if n == 0 || n > items.len() {
        Seq::empty()
    } else if n == 1 {
        render(items[0])
    } else {
        render_joined(items, (n - 1) as nat) + " "@ + render(items[n - 1])
    }
}

/// One decimal digit as text.
fn digit_str(d: u64) -> (r: &'static str)
    requires
        d < 10,
    ensures
        r@ == digit_text(d as int),
{
    if d == 0 {
        "0"
    } else if d == 1 {
        "1"
    } else if d == 2 {
        "2"
    } else if d == 3 {
        "3"
    } else if d == 4 {
        "4"
    } else if d == 5 {
        "5"
    } else if d == 6 {
        "6"
    } else if d == 7 {
        "7"
    } else if d == 8 {
        "8"
    } else {
        "9"
    }
}

/// Appends the decimal text of `n` to `out`.
fn push_nat(out: &mut String, n: u64)
    ensures
        final(out)@ == old(out)@ + nat_text(n as nat),
    decreases n,
{
    if n >= 10 {
        push_nat(out, n / 10);
    }
    out.append(digit_str(n % 10));
    assert(final(out)@ =~= old(out)@ + nat_text(n as nat)) by {
        reveal_with_fuel(nat_text, 2);
    }
}

/// The decimal text of a number.
pub fn number_text(n: i64) -> (r: String)
    ensures
        r@ == int_text(n as int),
{
    let mut out = String::new();
    if n < 0 {
        out.append("-");
        let magnitude: u64 = ((-(n + 1)) as u64) + 1;
        push_nat(&mut out, magnitude);
        assert(out@ =~= int_text(n as int));
    } else {
        push_nat(&mut out, n as u64);
        assert(out@ =~= int_text(n as int));
    }
    out
}

impl Expr {
    /// The text of this expression.
    pub fn to_string(&self) -> (r: String)
        ensures
            r@ == render(self@),
        decreases self,
    {
        match self {
            Expr::Nil => String::from_str("nil"),
            Expr::Symbol(s) => s.clone(),
            Expr::Num(n) => number_text(*n),
            Expr::String(s) => {
                let mut out = String::from_str("\"");
                out.append(s.as_str());
                out.append("\"");
                out
            },
            Expr::Bool(b) => if *b {
                String::from_str("#t")
            } else {
                String::from_str("#f")
            },
            Expr::SExpr(v) => {
                let mut out = String::from_str("(");
                let mut i: usize = 0;
                proof {
                    lemma_s_expr_view(*v);
                }
                while i < v.len()
                    invariant
                        i <= v.len(),
                        self is SExpr,
                        self->SExpr_0 == *v,
                        out@ == "("@ + render_joined(views(v@), i as nat),
                    decreases v.len() - i,
                {
                    proof {
                        assert(decreases_to!(*v => v[i as int]));
                        assert(decreases_to!(*self => self->SExpr_0));
                    }
                    if i > 0 {
                        out.append(" ");
                    }
                    let t = v[i].to_string();
                    out.append(t.as_str());
                    i += 1;
                    assert(out@ =~= "("@ + render_joined(views(v@), i as nat));
                }
                out.append(")");
                out
            },
            Expr::QExpr(q) => {
                let mut out = String::from_str("'");
                let t = (**q).to_string();
                out.append(t.as_str());
                out
            },
            Expr::Fn(b) => {
                let mut out = String::from_str("Function: ");
                out.append(b.name_str());
                out
            },
            Expr::Lambda(l) => {
                let mut out = String::from_str("Lambda: params: ");
                let p = (*l.params).to_string();
                out.append(p.as_str());
                out.append(" body: ");
                let b = (*l.body).to_string();
                out.append(b.as_str());
                out
            },
        }
    }
}

impl Expr {
    /// Whether two expressions have the same value: the same variant and the
    /// same payload, element by element.
    pub fn same(&self, other: &Expr) -> (b: bool)
        ensures
            b == (self@ == other@),
        decreases self,
    {
        match (self, other) {
            (Expr::Nil, Expr::Nil) => true,
            (Expr::Num(a), Expr::Num(b)) => *a == *b,
            (Expr::String(a), Expr::String(b)) => *a == *b,
            (Expr::Bool(a), Expr::Bool(b)) => *a == *b,
            (Expr::QExpr(a), Expr::QExpr(b)) => (**a).same(&**b),
            (Expr::SExpr(v), Expr::SExpr(w)) => {
                proof {
                    lemma_s_expr_view(*v);
                    lemma_s_expr_view(*w);
                }
                if v.len() != w.len() {
                    assert(views(v@).len() != views(w@).len());
                    return false;
                }
                let mut i: usize = 0;
                while i < v.len()
                    invariant
                        i <= v.len(),
                        v.len() == w.len(),
                        self is SExpr,
                        self->SExpr_0 == *v,
                        self@ == ExprView::SExpr(views(v@)),
                        other@ == ExprView::SExpr(views(w@)),
                        forall|j: int| 0 <= j < i ==> v[j]@ == w[j]@,
                    decreases v.len() - i,
                {
                    proof {
                        assert(decreases_to!(*v => v[i as int]));
                        assert(decreases_to!(*self => self->SExpr_0));
                    }
                    if !v[i].same(&w[i]) {
                        assert(views(v@)[i as int] != views(w@)[i as int]);
                        return false;
                    }
                    i += 1;
                }
                assert(views(v@) =~= views(w@));
                true
            },
            (Expr::Symbol(a), Expr::Symbol(b)) => *a == *b,
            (Expr::Fn(a), Expr::Fn(b)) => *a == *b,
            (Expr::Lambda(a), Expr::Lambda(b)) => {
                (*a.params).same(&*b.params) && (*a.body).same(&*b.body)
            },
            _ => false,
        }
    }
}

} // verus!
