//! Reading back what was printed: the reader turns the text of an
//! expression into that expression again.
use crate::ast::{digit_text, int_text, nat_text, render, render_joined, ExprView};
use crate::builtin::fits;
use crate::reader::{
    all_digits, atom_end, classify, digits_of, digits_value, is_delimiter, is_digit, is_space,
    looks_numeric, number_of, read_expr, read_items, string_end,
};
use vstd::prelude::*;

verus! {

/// The text of a digit is one character, a digit, of that value.
pub proof fn lemma_digit_text(d: int)
    requires
        0 <= d <= 9,
    ensures
        digit_text(d).len() == 1,
        is_digit(digit_text(d)[0]),
        digit_text(d)[0] as u32 - 48 == d,
{
    reveal_strlit("0");
    reveal_strlit("1");
    reveal_strlit("2");
    reveal_strlit("3");
    reveal_strlit("4");
    reveal_strlit("5");
    reveal_strlit("6");
    reveal_strlit("7");
    reveal_strlit("8");
    reveal_strlit("9");
}

/// The text of a natural number is made of digits and denotes that number.
pub proof fn lemma_nat_text(m: nat)
    ensures
        nat_text(m).len() >= 1,
        all_digits(nat_text(m)),
        digits_value(nat_text(m)) == m,
    decreases m,
{
    if m < 10 {
        lemma_digit_text(m as int);
        let t = nat_text(m);
        assert(t.drop_last() =~= Seq::<char>::empty());
        assert(digits_value(t.drop_last()) == 0);
    } else {
        lemma_nat_text(m / 10);
        lemma_digit_text((m % 10) as int);
        let head = nat_text(m / 10);
        let tail = digit_text((m % 10) as int);
        let t = head + tail;
        assert(t == nat_text(m));
        assert(t.drop_last() =~= head);
        assert(t.last() == tail[0]);
        assert forall|i: int| 0 <= i < t.len() implies is_digit(#[trigger] t[i]) by {
            if i < head.len() {
                assert(t[i] == head[i]);
            } else {
                assert(t[i] == tail[0]);
            }
        }
    }
}

/// The text of a number of the language is a numeric atom that denotes it.
pub proof fn lemma_int_text(n: int)
    requires
        fits(n),
    ensures
        int_text(n).len() >= 1,
        forall|i: int| 0 <= i < int_text(n).len() ==> !is_delimiter(#[trigger] int_text(n)[i]),
        classify(int_text(n)) == Ok::<ExprView, Seq<char>>(ExprView::Num(n)),
{
    reveal_strlit("-");
    let t = int_text(n);
    if n < 0 {
        let ds = nat_text((-n) as nat);
        lemma_nat_text((-n) as nat);
        assert(t == "-"@ + ds);
        assert(t[0] == '-');
        assert(t[1] == ds[0]);
        assert(digits_of(t) =~= ds);
        assert forall|i: int| 0 <= i < t.len() implies !is_delimiter(#[trigger] t[i]) by {
            if i > 0 {
                assert(t[i] == ds[i - 1]);
                assert(is_digit(ds[i - 1]));
            }
        }
        assert(looks_numeric(t));
        assert(number_of(t) == Some(n));
    } else {
        lemma_nat_text(n as nat);
        assert(is_digit(t[0]));
        assert(digits_of(t) =~= t);
        assert forall|i: int| 0 <= i < t.len() implies !is_delimiter(#[trigger] t[i]) by {
            assert(is_digit(t[i]));
        }
        assert(looks_numeric(t));
        assert(number_of(t) == Some(n));
    }
    assert(t != seq!['n', 'i', 'l']);
    assert(t != seq!['#', 't']);
    assert(t != seq!['#', 'f']);
}

/// A name that reads back as a symbol: not empty, free of delimiters, and
/// not the text of another atom.
pub open spec fn plain_symbol(s: Seq<char>) -> bool {
    &&& s.len() > 0
    &&& forall|i: int| 0 <= i < s.len() ==> !is_delimiter(#[trigger] s[i])
    &&& !looks_numeric(s)
    &&& s != seq!['n', 'i', 'l']
    &&& s != seq!['#', 't']
    &&& s != seq!['#', 'f']
}

/// An expression that source text can denote: no function value occurs in
/// it, its numbers are numbers of the language, its strings hold no double
/// quote, and its symbols are plain.
pub open spec fn readable(e: ExprView) -> bool
    decreases e,
{
    match e {
        ExprView::Nil => true,
        ExprView::Bool(_) => true,
        ExprView::Num(n) => fits(n),
        ExprView::String(s) => forall|i: int| 0 <= i < s.len() ==> #[trigger] s[i] != '"',
        ExprView::Symbol(s) => plain_symbol(s),
        ExprView::QExpr(q) => readable(*q),
        ExprView::SExpr(items) => forall|i: int|
            0 <= i < items.len() ==> readable(#[trigger] items[i]),
        ExprView::Fn(_) => false,
        ExprView::Lambda(_, _) => false,
    }
}

/// Position `k` is the end of the text or holds a delimiter.
pub open spec fn ends_at(s: Seq<char>, k: int) -> bool {
    k == s.len() || (0 <= k < s.len() && is_delimiter(s[k]))
}

/// The text `t` stands in `s` from position `i` on.
pub open spec fn stands_at(s: Seq<char>, i: int, t: Seq<char>) -> bool {
    0 <= i && i + t.len() <= s.len() && s.subrange(i, i + t.len()) == t
}

/// An atom ends where its characters end.
pub proof fn lemma_atom_end(s: Seq<char>, i: int, len: nat)
    requires
        0 <= i,
        i + len <= s.len(),
        forall|j: int| i <= j < i + len ==> !is_delimiter(#[trigger] s[j]),
        ends_at(s, i + len),
    ensures
        atom_end(s, i) == i + len,
    decreases len,
{
    if len > 0 {
        lemma_atom_end(s, i + 1, (len - 1) as nat);
    }
}

/// A string ends at the first double quote.
pub proof fn lemma_string_end(s: Seq<char>, i: int, len: nat)
    requires
        0 <= i,
        i + len < s.len(),
        forall|j: int| i <= j < i + len ==> #[trigger] s[j] != '"',
        s[i + len] == '"',
    ensures
        string_end(s, i) == i + len,
    decreases len,
{
    if len > 0 {
        lemma_string_end(s, i + 1, (len - 1) as nat);
    }
}

/// The character at position `j` of a text that stands in `s`.
pub proof fn lemma_stands_at(s: Seq<char>, i: int, t: Seq<char>, j: int)
    requires
        stands_at(s, i, t),
        0 <= j < t.len(),
    ensures
        s[i + j] == t[j],
{
    assert(s.subrange(i, i + t.len())[j] == s[i + j]);
}

/// A part of a text that stands in `s` stands in `s` too.
pub proof fn lemma_part_stands(s: Seq<char>, i: int, t: Seq<char>, from: int, to: int)
    requires
        stands_at(s, i, t),
        0 <= from <= to <= t.len(),
    ensures
        stands_at(s, i + from, t.subrange(from, to)),
{
    assert(s.subrange(i + from, i + to) =~= s.subrange(i, i + t.len()).subrange(from, to));
}

/// The text of a readable expression is not empty, and opens neither with
/// white space nor with a closing bracket.
pub proof fn lemma_render_head(e: ExprView)
    requires
        readable(e),
    ensures
        render(e).len() >= 1,
        !is_space(render(e)[0]),
        render(e)[0] != ')',
        render(e)[0] != '}',
{
    reveal_strlit("nil");
    reveal_strlit("#t");
    reveal_strlit("#f");
    reveal_strlit("\"");
    reveal_strlit("(");
    reveal_strlit("'");
    match e {
        ExprView::Num(n) => {
            lemma_int_text(n);
            assert(!is_delimiter(int_text(n)[0]));
        },
        ExprView::Symbol(s) => {
            assert(!is_delimiter(s[0]));
        },
        _ => {},
    }
}

/// The texts of the first `k` elements, joined, open the texts of the
/// first `n` elements, joined.
pub proof fn lemma_joined_prefix(items: Seq<ExprView>, k: nat, n: nat)
    requires
        k <= n <= items.len(),
    ensures
        render_joined(items, k).len() <= render_joined(items, n).len(),
        render_joined(items, n).subrange(0, render_joined(items, k).len() as int)
            == render_joined(items, k),
    decreases n - k,
{
    let a = render_joined(items, k);
    let b = render_joined(items, n);
    if k == n {
        assert(b.subrange(0, a.len() as int) =~= a);
    } else {
        lemma_joined_prefix(items, k, (n - 1) as nat);
        let c = render_joined(items, (n - 1) as nat);
        if n == 1 {
            assert(k == 0);
            assert(a =~= Seq::<char>::empty());
            assert(b.subrange(0, 0) =~= a);
        } else {
            assert(b == c + " "@ + render(items[n - 1]));
            assert(b.subrange(0, a.len() as int) =~= c.subrange(0, a.len() as int));
        }
    }
}

/// How the joined texts grow by one element: the element's text comes
/// last, behind one space unless it is the first.
pub proof fn lemma_joined_step(items: Seq<ExprView>, k: nat)
    requires
        k < items.len(),
    ensures
        k == 0 ==> render_joined(items, 1) == render(items[0]),
        k > 0 ==> render_joined(items, k + 1).len() == render_joined(items, k).len() + 1 + render(
            items[k as int],
        ).len(),
        k > 0 ==> render_joined(items, k + 1)[render_joined(items, k).len() as int] == ' ',
        render_joined(items, k + 1).subrange(
            render_joined(items, k + 1).len() - render(items[k as int]).len(),
            render_joined(items, k + 1).len() as int,
        ) == render(items[k as int]),
{
    reveal_strlit(" ");
    let r = render(items[k as int]);
    let b = render_joined(items, k + 1);
    if k == 0 {
        assert(b.subrange(0, b.len() as int) =~= r);
    } else {
        let a = render_joined(items, k);
        assert(b == a + " "@ + r);
        assert(b.subrange(b.len() - r.len(), b.len() as int) =~= r);
    }
}

/// Where the text of a readable expression stands in `s`, and ends at the
/// end of `s` or before a delimiter, the reader finds that expression
/// there, and ends behind its text.
pub proof fn lemma_read_rendered(s: Seq<char>, i: int, e: ExprView)
    requires
        readable(e),
        stands_at(s, i, render(e)),
        ends_at(s, i + render(e).len()),
    ensures
        read_expr(s, i) == Ok::<(ExprView, int), Seq<char>>((e, i + render(e).len())),
    decreases e, 0nat,
{
    reveal_strlit("nil");
    reveal_strlit("#t");
    reveal_strlit("#f");
    reveal_strlit("\"");
    reveal_strlit("(");
    reveal_strlit(")");
    reveal_strlit("'");
    let r = render(e);
    lemma_render_head(e);
    lemma_stands_at(s, i, r, 0);
    match e {
        ExprView::Nil => {
            assert forall|j: int| i <= j < i + 3 implies !is_delimiter(#[trigger] s[j]) by {
                lemma_stands_at(s, i, r, j - i);
            }
            lemma_atom_end(s, i, 3);
            assert(s.subrange(i, i + 3) =~= seq!['n', 'i', 'l']);
        },
        ExprView::Bool(b) => {
            assert forall|j: int| i <= j < i + 2 implies !is_delimiter(#[trigger] s[j]) by {
                lemma_stands_at(s, i, r, j - i);
            }
            lemma_atom_end(s, i, 2);
            if b {
                assert(s.subrange(i, i + 2) =~= seq!['#', 't']);
            } else {
                assert(s.subrange(i, i + 2) =~= seq!['#', 'f']);
            }
        },
        ExprView::Num(n) => {
            lemma_int_text(n);
            assert forall|j: int| i <= j < i + r.len() implies !is_delimiter(#[trigger] s[j]) by {
                lemma_stands_at(s, i, r, j - i);
                assert(!is_delimiter(r[j - i]));
            }
            lemma_atom_end(s, i, r.len());
        },
        ExprView::Symbol(name) => {
            assert forall|j: int| i <= j < i + r.len() implies !is_delimiter(#[trigger] s[j]) by {
                lemma_stands_at(s, i, r, j - i);
                assert(!is_delimiter(name[j - i]));
            }
            lemma_atom_end(s, i, r.len());
        },
        ExprView::String(text) => {
            assert(r == "\""@ + text + "\""@);
            assert(r.len() == text.len() + 2);
            assert forall|j: int| i + 1 <= j < i + 1 + text.len() implies #[trigger] s[j]
                != '"' by {
                lemma_stands_at(s, i, r, j - i);
                assert(r[j - i] == text[j - i - 1]);
            }
            lemma_stands_at(s, i, r, text.len() as int + 1);
            lemma_string_end(s, i + 1, text.len());
            lemma_part_stands(s, i, r, 1, text.len() as int + 1);
            assert(r.subrange(1, text.len() as int + 1) =~= text);
        },
        ExprView::QExpr(q) => {
            let inner = render(*q);
            assert(r == "'"@ + inner);
            lemma_part_stands(s, i, r, 1, r.len() as int);
            assert(r.subrange(1, r.len() as int) =~= inner);
            lemma_read_rendered(s, i + 1, *q);
        },
        ExprView::SExpr(items) => {
            let joined = render_joined(items, items.len());
            assert(r == "("@ + joined + ")"@);
            assert(r.len() == joined.len() + 2);
            lemma_part_stands(s, i, r, 1, joined.len() as int + 1);
            assert(r.subrange(1, joined.len() as int + 1) =~= joined);
            lemma_stands_at(s, i, r, joined.len() as int + 1);
            lemma_read_from(s, i + 1, items, 0, Seq::empty());
            assert(Seq::<ExprView>::empty() + items.subrange(0, items.len() as int) =~= items);
        },
        ExprView::Fn(_) => {},
        ExprView::Lambda(_, _) => {},
    }
}

/// Where the joined texts of readable elements stand in `s` from `start`
/// on, before a closing parenthesis, the reader, set behind the first `k`
/// of them, finds the others in order and ends behind the parenthesis.
pub proof fn lemma_read_from(
    s: Seq<char>,
    start: int,
    items: Seq<ExprView>,
    k: nat,
    acc: Seq<ExprView>,
)
    requires
        forall|i: int| 0 <= i < items.len() ==> readable(#[trigger] items[i]),
        stands_at(s, start, render_joined(items, items.len())),
        start + render_joined(items, items.len()).len() < s.len(),
        s[start + render_joined(items, items.len()).len()] == ')',
        k <= items.len(),
    ensures
        read_items(
            s,
            start + (if k == 0 {
                0
            } else {
                render_joined(items, k).len() as int
            }),
            Some(')'),
            acc,
        ) == Ok::<(Seq<ExprView>, int), Seq<char>>(
            (
                acc + items.subrange(k as int, items.len() as int),
                start + render_joined(items, items.len()).len() + 1,
            ),
        ),
    decreases items, items.len() - k,
{
    let n = items.len();
    let joined = render_joined(items, n);
    let q = start + (if k == 0 {
        0
    } else {
        render_joined(items, k).len() as int
    });
    if k == n {
        assert(q == start + joined.len());
        assert(acc + items.subrange(k as int, n as int) =~= acc);
    } else {
        let item = items[k as int];
        let r = render(item);
        let upto = render_joined(items, k + 1);
        lemma_render_head(item);
        lemma_joined_step(items, k);
        lemma_joined_prefix(items, k + 1, n);
        lemma_part_stands(s, start, joined, 0, upto.len() as int);
        lemma_part_stands(s, start, upto, upto.len() - r.len(), upto.len() as int);
        let p = start + upto.len() - r.len();
        assert(stands_at(s, p, r));
        // What follows the element is a space or the closing parenthesis.
        if k + 1 < n {
            lemma_joined_step(items, k + 1);
            lemma_joined_prefix(items, k + 2, n);
            let next = render_joined(items, k + 2);
            lemma_part_stands(s, start, joined, 0, next.len() as int);
            lemma_stands_at(s, start, next, upto.len() as int);
            assert(s[start + upto.len()] == ' ');
        }
        assert(ends_at(s, p + r.len()));
        lemma_read_rendered(s, p, item);
        lemma_stands_at(s, p, r, 0);
        lemma_read_from(s, start, items, k + 1, acc.push(item));
        assert(acc.push(item) + items.subrange(k as int + 1, n as int) =~= acc + items.subrange(
            k as int,
            n as int,
        ));
        if k > 0 {
            // The reader stands on the space before the element.
            lemma_stands_at(s, start, upto, render_joined(items, k).len() as int);
            assert(s[q] == ' ');
            assert(p == q + 1);
            assert(read_items(s, q, Some(')'), acc) == read_items(s, p, Some(')'), acc));
        } else {
            assert(p == q);
        }
        assert(read_items(s, p, Some(')'), acc) == read_items(
            s,
            p + r.len(),
            Some(')'),
            acc.push(item),
        ));
    }
}

/// The reader undoes the printer: the text of a readable expression reads
/// back as a program of that one expression.
pub proof fn lemma_read_back(e: ExprView)
    requires
        readable(e),
    ensures
        crate::reader::read_program(render(e)) == Ok::<Seq<ExprView>, crate::LangErrorView>(
            seq![e],
        ),
{
    let s = render(e);
    lemma_render_head(e);
    assert(s.subrange(0, s.len() as int) =~= s);
    lemma_read_rendered(s, 0, e);
    assert(Seq::<ExprView>::empty().push(e) =~= seq![e]);
    assert(read_items(s, 0, None, Seq::empty()) == read_items(
        s,
        s.len() as int,
        None,
        Seq::<ExprView>::empty().push(e),
    ));
}

} // verus!
