//! Helpers of the native functions and of the evaluator: typed argument
//! lists, tests on neighbouring arguments, and the trimming of doubled
//! outer parentheses.
use crate::ast::{lemma_s_expr_view, views, Expr, ExprView};
use crate::builtin::{all_nums, all_strings, nums, texts};
use crate::eval::{all_symbols, param_names, symbol_names};
use crate::{LangError, LangErrorView, LangResult};
use vstd::prelude::*;

verus! {

/// The integers that a sequence of machine numbers holds.
pub open spec fn ints(xs: Seq<i64>) -> Seq<int> {
    Seq::new(xs.len(), |i: int| xs[i] as int)
}

/// The views of a sequence of strings.
pub open spec fn string_views(xs: Seq<String>) -> Seq<Seq<char>> {
    Seq::new(xs.len(), |i: int| xs[i]@)
}

/// The texts that the arguments hold, in order. An argument that is no
/// string fails the whole list.
pub fn parse_list_of_strings(args: &[Expr]) -> (r: LangResult<Vec<String>>)
    ensures
        match r {
            Ok(v) => all_strings(views(args@)) && string_views(v@) == texts(views(args@)),
            Err(e) => !all_strings(views(args@)) && e@ == LangErrorView::Other(
                "expected a string"@,
            ),
        },
{
    let mut out: Vec<String> = Vec::new();
    let mut i: usize = 0;
    while i < args.len()
        invariant
            i <= args.len(),
            out.len() == i,
            forall|j: int| 0 <= j < i ==> (#[trigger] views(args@)[j]) is String,
            forall|j: int| 0 <= j < i ==> out[j]@ == views(args@)[j]->String_0,
        decreases args.len() - i,
    {
        match &args[i] {
            Expr::String(s) => {
                out.push(s.clone());
            },
            _ => {
                assert(!(views(args@)[i as int] is String));
                return Err(LangError::Other(String::from_str("expected a string")));
            },
        }
        i += 1;
    }
    assert(string_views(out@) =~= texts(views(args@)));
    Ok(out)
}

/// The numbers that the arguments hold, in order. An argument that is no
/// number fails the whole list.
pub fn parse_list_of_floats(args: &[Expr]) -> (r: LangResult<Vec<i64>>)
    ensures
        match r {
            Ok(v) => all_nums(views(args@)) && ints(v@) == nums(views(args@)),
            Err(e) => !all_nums(views(args@)) && e@ == LangErrorView::TypeMismatched,
        },
{
    let mut out: Vec<i64> = Vec::new();
    let mut i: usize = 0;
    while i < args.len()
        invariant
            i <= args.len(),
            out.len() == i,
            forall|j: int| 0 <= j < i ==> (#[trigger] views(args@)[j]) is Num,
            forall|j: int| 0 <= j < i ==> out[j] as int == views(args@)[j]->Num_0,
        decreases args.len() - i,
    {
        match &args[i] {
            Expr::Num(n) => {
                out.push(*n);
            },
            _ => {
                assert(!(views(args@)[i as int] is Num));
                return Err(LangError::TypeMismatched);
            },
        }
        i += 1;
    }
    assert(ints(out@) =~= nums(views(args@)));
    Ok(out)
}

/// The pair of neighbours of `args` that starts at position `i`.
pub open spec fn pair_at(args: Seq<Expr>, i: int) -> (&'static Expr, &'static Expr) {
    (&args[i], &args[i + 1])
}

/// Whether `body` holds of every two neighbours of `args`, in order: the
/// result is `Bool(true)` only if it returned `true` on each pair, and
/// `Bool(false)` only if it returned `false` on some pair.
pub fn ensure<F>(args: &[Expr], body: F) -> (r: LangResult<Expr>) where
    F: Fn(&Expr, &Expr) -> bool,

    requires
        forall|i: int| 0 <= i < args@.len() - 1 ==> call_requires(body, #[trigger] pair_at(args@, i)),
    ensures
        r is Ok,
        r->Ok_0@ is Bool,
        r->Ok_0@->Bool_0 ==> forall|i: int|
            0 <= i < args@.len() - 1 ==> call_ensures(body, #[trigger] pair_at(args@, i), true),
        !r->Ok_0@->Bool_0 ==> exists|i: int|
            0 <= i < args@.len() - 1 && call_ensures(body, #[trigger] pair_at(args@, i), false),
{
    if args.len() < 2 {
        return Ok(Expr::Bool(true));
    }
    let mut i: usize = 0;
    while i < args.len() - 1
        invariant
            args@.len() >= 2,
            i <= args@.len() - 1,
            forall|j: int|
                0 <= j < args@.len() - 1 ==> call_requires(body, #[trigger] pair_at(args@, j)),
            forall|j: int|
                0 <= j < i && j < args@.len() - 1 ==> call_ensures(
                    body,
                    #[trigger] pair_at(args@, j),
                    true,
                ),
        decreases args.len() - i,
    {
        assert(pair_at(args@, i as int) == (&args@[i as int], &args@[i + 1]));
        if !body(&args[i], &args[i + 1]) {
            return Ok(Expr::Bool(false));
        }
        i += 1;
    }
    Ok(Expr::Bool(true))
}

/// The parameter names that a parameter specification declares: the one
/// name of a symbol, or the names of a list whose elements are all symbols.
pub fn parse_list_of_args(args: &Expr) -> (r: LangResult<Vec<String>>)
    ensures
        match r {
            Ok(v) => param_names(args@) == Ok::<Seq<Seq<char>>, LangErrorView>(string_views(v@)),
            Err(e) => param_names(args@) == Err::<Seq<Seq<char>>, LangErrorView>(e@),
        },
{
    match args {
        Expr::Symbol(s) => {
            let mut out: Vec<String> = Vec::new();
            out.push(s.clone());
            assert(string_views(out@) =~= seq![s@]);
            Ok(out)
        },
        Expr::SExpr(items) => {
            proof {
                lemma_s_expr_view(*items);
            }
            let mut out: Vec<String> = Vec::new();
            let mut i: usize = 0;
            while i < items.len()
                invariant
                    i <= items.len(),
                    out.len() == i,
                    args@ == ExprView::SExpr(views(items@)),
                    forall|j: int| 0 <= j < i ==> (#[trigger] views(items@)[j]) is Symbol,
                    forall|j: int| 0 <= j < i ==> out[j]@ == views(items@)[j]->Symbol_0,
                decreases items.len() - i,
            {
                match &items[i] {
                    Expr::Symbol(s) => {
                        out.push(s.clone());
                    },
                    _ => {
                        assert(!(views(items@)[i as int] is Symbol));
                        return Err(LangError::Other(String::from_str("expected a symbol")));
                    },
                }
                i += 1;
            }
            assert(string_views(out@) =~= symbol_names(views(items@)));
            Ok(out)
        },
        _ => Err(LangError::Unknown),
    }
}

/// The text opens with two opening parentheses and closes with two closing ones.
pub open spec fn doubly_wrapped(s: Seq<char>) -> bool {
    &&& s.len() >= 2
    &&& s[0] == '(' && s[1] == '('
    &&& s[s.len() - 1] == ')' && s[s.len() - 2] == ')'
}

/// What is left of `s` when, as long as it is doubly wrapped, the part from
/// its second character up to position `right` is taken, and `right` moves
/// one to the left.
pub open spec fn trim_from(s: Seq<char>, right: int) -> Seq<char>
    decreases s.len(),
{
    if doubly_wrapped(s) && 1 <= right <= s.len() {
        trim_from(s.subrange(1, right), right - 1)
    } else {
        s
    }
}

/// What `trim_bracket_outer` leaves of a text. A text that is not doubly
/// wrapped stays whole. Of one that is, the first step drops the first and
/// the last character; each further step, as long as what is left is doubly
/// wrapped again, drops the first character only.
pub open spec fn trim_outer(s: Seq<char>) -> Seq<char> {
    trim_from(s, s.len() - 1)
}

/// One redundant pair of parentheses is stripped: of a text in two pairs
/// whose inner pair is not doubled again, the inner pair and its content
/// are left.
pub proof fn lemma_trim_one_pair(inner: Seq<char>)
    requires
        !doubly_wrapped(seq!['('] + inner + seq![')']),
    ensures
        trim_outer(seq!['(', '('] + inner + seq![')', ')']) == seq!['('] + inner + seq![')'],
{
    let whole = seq!['(', '('] + inner + seq![')', ')'];
    let kept = seq!['('] + inner + seq![')'];
    assert(doubly_wrapped(whole));
    assert(whole.subrange(1, whole.len() - 1) =~= kept);
    assert(trim_from(whole, whole.len() - 1) == trim_from(kept, whole.len() - 2));
}

/// Whether a text is doubly wrapped; `len` is its length in characters.
fn is_doubly_wrapped(s: &str, len: usize) -> (b: bool)
    requires
        len == s@.len(),
    ensures
        b == doubly_wrapped(s@),
{
    len >= 2 && s.get_char(0) == '(' && s.get_char(1) == '(' && s.get_char(len - 1) == ')'
        && s.get_char(len - 2) == ')'
}

/// Strips redundant outer parentheses from a text that is wrapped in more
/// than one pair.
pub fn trim_bracket_outer(s: &str) -> (r: &str)
    ensures
        r@ == trim_outer(s@),
{
    let mut cur: &str = s;
    let mut len: usize = s.unicode_len();
    if len == 0 {
        return s;
    }
    let mut right: usize = len - 1;
    while is_doubly_wrapped(cur, len)
        invariant
            len == cur@.len(),
            right == len || right + 1 == len,
            trim_outer(s@) == trim_from(cur@, right as int),
        decreases len,
    {
        cur = cur.substring_char(1, right);
        len = right - 1;
        right = right - 1;
    }
    cur
}

} // verus!
