//! The reader: from source text to expressions.
//!
//! A program is a sequence of expressions, separated by white space. An
//! expression is a list in parentheses, a quoted expression (a quote mark
//! before any expression, or a list in braces), a string in double quotes,
//! or an atom: `nil`, `#t`, `#f`, a decimal integer, or a symbol.
use crate::ast::{lemma_s_expr_view, views, Expr, ExprView};
use crate::builtin::fits;
use crate::{LangError, LangErrorView, LangResult};
use vstd::prelude::*;
use vstd::std_specs::iter::IteratorSpec;

verus! {

/// White space between expressions.
pub open spec fn is_space(c: char) -> bool {
    c == ' ' || c == '\t' || c == '\n' || c == '\r'
}

/// A character that ends an atom.
pub open spec fn is_delimiter(c: char) -> bool {
    is_space(c) || c == '(' || c == ')' || c == '{' || c == '}' || c == '\'' || c == '"'
}

/// A decimal digit.
pub open spec fn is_digit(c: char) -> bool {
    48 <= c as u32 <= 57
}

/// The first position from `i` on that holds a delimiter, or the end.
pub open spec fn atom_end(s: Seq<char>, i: int) -> int
    decreases s.len() - i,
{
    if 0 <= i < s.len() && !is_delimiter(s[i]) {
        atom_end(s, i + 1)
    } else {
        i
    }
}

/// The first position from `i` on that holds a double quote, or the end.
pub open spec fn string_end(s: Seq<char>, i: int) -> int
    decreases s.len() - i,
{
    if 0 <= i < s.len() && s[i] != '"' {
        string_end(s, i + 1)
    } else {
        i
    }
}

/// Every character is a decimal digit.
pub open spec fn all_digits(ds: Seq<char>) -> bool {
    forall|i: int| 0 <= i < ds.len() ==> is_digit(#[trigger] ds[i])
}

/// The number that a sequence of decimal digits denotes.
pub open spec fn digits_value(ds: Seq<char>) -> int
    decreases ds.len(),
{
    if ds.len() == 0 {
        0
    } else {
        digits_value(ds.drop_last()) * 10 + (ds.last() as u32 - 48)
    }
}

/// An atom that can only be meant as a number: it starts with a digit, or
/// with a sign and a digit.
pub open spec fn looks_numeric(atom: Seq<char>) -> bool {
    atom.len() > 0 && (is_digit(atom[0]) || (atom.len() > 1 && (atom[0] == '-' || atom[0] == '+')
        && is_digit(atom[1])))
}

/// The digits of a numeric atom: what follows its sign, if it has one.
pub open spec fn digits_of(atom: Seq<char>) -> Seq<char> {
    if atom.len() > 0 && (atom[0] == '-' || atom[0] == '+') {
        atom.subrange(1, atom.len() as int)
    } else {
        atom
    }
}

/// The number that an atom denotes: an optional sign, then decimal digits
/// and nothing else, with a value that is a number of the language.
pub open spec fn number_of(atom: Seq<char>) -> Option<int> {
    let ds = digits_of(atom);
    let value = if atom.len() > 0 && atom[0] == '-' {
        -digits_value(ds)
    } else {
        digits_value(ds)
    };
    if ds.len() > 0 && all_digits(ds) && fits(value) {
        Some(value)
    } else {
        None
    }
}

/// The expression that an atom denotes.
pub open spec fn classify(atom: Seq<char>) -> Result<ExprView, Seq<char>> {
    if atom == seq!['n', 'i', 'l'] {
        Ok(ExprView::Nil)
    } else if atom == seq!['#', 't'] {
        Ok(ExprView::Bool(true))
    } else if atom == seq!['#', 'f'] {
        Ok(ExprView::Bool(false))
    } else if looks_numeric(atom) {
        match number_of(atom) {
            Some(n) => Ok(ExprView::Num(n)),
            None => Err("invalid number"@),
        }
    } else {
        Ok(ExprView::Symbol(atom))
    }
}

/// The expression that starts at position `i`, and the position behind it.
pub open spec fn read_expr(s: Seq<char>, i: int) -> Result<(ExprView, int), Seq<char>>
    decreases s.len() - i, 0nat,
{
    if i < 0 || i >= s.len() {
        Err("unexpected end of input"@)
    } else if is_space(s[i]) {
        Err("expected an expression"@)
    } else if s[i] == '(' {
        match read_items(s, i + 1, Some(')'), Seq::empty()) {
            Ok((items, k)) => Ok((ExprView::SExpr(items), k)),
            Err(m) => Err(m),
        }
    } else if s[i] == '{' {
        match read_items(s, i + 1, Some('}'), Seq::empty()) {
            Ok((items, k)) => Ok((ExprView::QExpr(Box::new(ExprView::SExpr(items))), k)),
            Err(m) => Err(m),
        }
    } else if s[i] == ')' || s[i] == '}' {
        Err("unexpected closing bracket"@)
    } else if s[i] == '\'' {
        match read_expr(s, i + 1) {
            Ok((e, k)) => Ok((ExprView::QExpr(Box::new(e)), k)),
            Err(m) => Err(m),
        }
    } else if s[i] == '"' {
        let e = string_end(s, i + 1);
        if e >= s.len() {
            Err("unterminated string"@)
        } else {
            Ok((ExprView::String(s.subrange(i + 1, e)), e + 1))
        }
    } else {
        let e = atom_end(s, i);
        match classify(s.subrange(i, e)) {
            Ok(v) => Ok((v, e)),
            Err(m) => Err(m),
        }
    }
}

/// The expressions from position `i` up to the closing character `close`,
/// added to `acc`, and the position behind that character. Where `close`
/// is `None` the end of the text closes the sequence. (An expression always
/// ends behind its start and within the text, so the test on `k` never fails.)
pub open spec fn read_items(s: Seq<char>, i: int, close: Option<char>, acc: Seq<ExprView>) -> Result<
    (Seq<ExprView>, int),
    Seq<char>,
>
    decreases s.len() - i, 1nat,
{
    if i < 0 {
        Err("unexpected end of input"@)
    } else if i >= s.len() {
        if close is None {
            Ok((acc, i))
        } else {
            Err("unexpected end of input"@)
        }
    } else if is_space(s[i]) {
        read_items(s, i + 1, close, acc)
    } else if close == Some(s[i]) {
        Ok((acc, i + 1))
    } else {
        match read_expr(s, i) {
            Err(m) => Err(m),
            Ok((e, k)) => if k <= i || k > s.len() {
                Err("expected an expression"@)
            } else {
                read_items(s, k, close, acc.push(e))
            },
        }
    }
}

/// The program that a text holds: its expressions in order, or the reason
/// why it is malformed.
pub open spec fn read_program(s: Seq<char>) -> Result<Seq<ExprView>, LangErrorView> {
    match read_items(s, 0, None, Seq::empty()) {
        Ok((items, _)) => Ok(items),
        Err(m) => Err(LangErrorView::ParseFailed(m)),
    }
}

/// The end of an atom or of a string lies between its start and the end of
/// the text.
pub proof fn lemma_ends_within(s: Seq<char>, i: int)
    requires
        0 <= i <= s.len(),
    ensures
        i <= atom_end(s, i) <= s.len(),
        i <= string_end(s, i) <= s.len(),
    decreases s.len() - i,
{
    if i < s.len() {
        lemma_ends_within(s, i + 1);
    }
}

/// An expression ends behind its start and within the text.
pub proof fn lemma_read_expr_advances(s: Seq<char>, i: int)
    requires
        0 <= i <= s.len(),
    ensures
        read_expr(s, i) is Ok ==> i < read_expr(s, i)->Ok_0.1 <= s.len(),
    decreases s.len() - i, 0nat,
{
    if i < s.len() && !is_space(s[i]) {
        if s[i] == '(' {
            lemma_read_items_advance(s, i + 1, Some(')'), Seq::empty());
        } else if s[i] == '{' {
            lemma_read_items_advance(s, i + 1, Some('}'), Seq::empty());
        } else if s[i] == ')' || s[i] == '}' {
        } else if s[i] == '\'' {
            lemma_read_expr_advances(s, i + 1);
        } else if s[i] == '"' {
            lemma_ends_within(s, i + 1);
        } else {
            lemma_ends_within(s, i + 1);
        }
    }
}

/// A sequence of expressions ends at or behind its start and within the text.
pub proof fn lemma_read_items_advance(
    s: Seq<char>,
    i: int,
    close: Option<char>,
    acc: Seq<ExprView>,
)
    requires
        0 <= i <= s.len(),
    ensures
        read_items(s, i, close, acc) is Ok ==> i <= read_items(s, i, close, acc)->Ok_0.1
            <= s.len(),
    decreases s.len() - i, 1nat,
{
    if i < s.len() {
        if is_space(s[i]) {
            lemma_read_items_advance(s, i + 1, close, acc);
        } else if close == Some(s[i]) {
        } else {
            lemma_read_expr_advances(s, i);
            match read_expr(s, i) {
                Ok((e, k)) => {
                    lemma_read_items_advance(s, k, close, acc.push(e));
                },
                Err(_) => {},
            }
        }
    }
}

/// The characters of a text, in order.
pub fn chars_of(s: &str) -> (v: Vec<char>)
    ensures
        v@ == s@,
{
    broadcast use vstd::string::group_string_axioms;

    let n = s.unicode_len();
    let mut v: Vec<char> = Vec::new();
    let mut it = s.chars();
    let mut i: usize = 0;
    while i < n
        invariant
            i <= n,
            n == s@.len(),
            v@.len() == i,
            it.obeys_prophetic_iter_laws(),
            v@ + it.remaining() == s@,
        decreases n - i,
    {
        match it.next() {
            Some(c) => {
                v.push(c);
                assert(v@ + it.remaining() =~= s@);
            },
            None => {},
        }
        i += 1;
    }
    assert(v@ =~= s@);
    v
}

fn space(c: char) -> (b: bool)
    ensures
        b == is_space(c),
{
    c == ' ' || c == '\t' || c == '\n' || c == '\r'
}

fn delimiter(c: char) -> (b: bool)
    ensures
        b == is_delimiter(c),
{
    space(c) || c == '(' || c == ')' || c == '{' || c == '}' || c == '\'' || c == '"'
}

fn digit(c: char) -> (b: bool)
    ensures
        b == is_digit(c),
{
    let d: u32 = c as u32;
    48 <= d && d <= 57
}

fn find_atom_end(chars: &Vec<char>, i: usize) -> (e: usize)
    requires
        i <= chars.len(),
    ensures
        e == atom_end(chars@, i as int),
        i <= e <= chars.len(),
{
    let mut e: usize = i;
    while e < chars.len() && !delimiter(chars[e])
        invariant
            i <= e <= chars.len(),
            atom_end(chars@, i as int) == atom_end(chars@, e as int),
        decreases chars.len() - e,
    {
        e += 1;
    }
    e
}

fn find_string_end(chars: &Vec<char>, i: usize) -> (e: usize)
    requires
        i <= chars.len(),
    ensures
        e == string_end(chars@, i as int),
        i <= e <= chars.len(),
{
    let mut e: usize = i;
    while e < chars.len() && chars[e] != '"'
        invariant
            i <= e <= chars.len(),
            string_end(chars@, i as int) == string_end(chars@, e as int),
        decreases chars.len() - e,
    {
        e += 1;
    }
    e
}

/// The value of a prefix of a sequence of digits is at most that of the whole.
proof fn lemma_digits_prefix(ds: Seq<char>, k: int)
    requires
        0 <= k <= ds.len(),
        all_digits(ds),
    ensures
        0 <= digits_value(ds.take(k)) <= digits_value(ds),
    decreases ds.len(),
{
    if k == ds.len() {
        assert(ds.take(k) =~= ds);
        if k > 0 {
            assert(all_digits(ds.drop_last()));
            lemma_digits_prefix(ds.drop_last(), k - 1);
            assert(ds.drop_last().take(k - 1) =~= ds.drop_last());
            assert(is_digit(ds[ds.len() - 1]));
        }
    } else {
        assert(all_digits(ds.drop_last()));
        lemma_digits_prefix(ds.drop_last(), k);
        assert(ds.drop_last().take(k) =~= ds.take(k));
        assert(is_digit(ds[ds.len() - 1]));
    }
}

/// The number that the atom from `from` up to `to` denotes.
fn parse_number(chars: &Vec<char>, from: usize, to: usize) -> (r: Option<i64>)
    requires
        from < to <= chars.len(),
    ensures
        match r {
            Some(n) => number_of(chars@.subrange(from as int, to as int)) == Some(n as int),
            None => number_of(chars@.subrange(from as int, to as int)) == None::<int>,
        },
{
    let ghost atom = chars@.subrange(from as int, to as int);
    let negative = chars[from] == '-';
    let signed = negative || chars[from] == '+';
    let start: usize = if signed {
        from + 1
    } else {
        from
    };
    let ghost ds = chars@.subrange(start as int, to as int);
    proof {
        assert(atom[0] == chars[from as int]);
        assert(ds =~= digits_of(atom));
    }
    if start == to {
        return None;
    }
    let limit: u128 = 9223372036854775808;
    let mut acc: u128 = 0;
    let mut i: usize = start;
    proof {
        assert(ds.take(0) =~= Seq::empty());
    }
    while i < to
        invariant
            from <= start <= i <= to <= chars.len(),
            from < to,
            atom == chars@.subrange(from as int, to as int),
            ds == chars@.subrange(start as int, to as int),
            ds == digits_of(atom),
            start < to,
            limit == 9223372036854775808,
            acc <= limit,
            acc == digits_value(ds.take(i - start)),
            all_digits(ds.take(i - start)),
        decreases to - i,
    {
        let c = chars[i];
        proof {
            assert(ds.take(i + 1 - start).drop_last() =~= ds.take(i - start));
            assert(ds.take(i + 1 - start).last() == c);
            assert(ds[i - start] == c);
        }
        if !digit(c) {
            assert(!all_digits(ds));
            return None;
        }
        acc = acc * 10 + ((c as u32 - 48) as u128);
        if acc > limit {
            proof {
                if all_digits(ds) {
                    lemma_digits_prefix(ds, i + 1 - start);
                }
            }
            return None;
        }
        proof {
            assert forall|j: int| 0 <= j < ds.take(i + 1 - start).len() implies is_digit(
                #[trigger] ds.take(i + 1 - start)[j],
            ) by {
                if j < i - start {
                    assert(ds.take(i - start)[j] == ds.take(i + 1 - start)[j]);
                }
            }
        }
        i += 1;
    }
    proof {
        assert(ds.take(i - start) =~= ds);
    }
    if negative {
        if acc == limit {
            Some(i64::MIN)
        } else {
            Some(-(acc as i64))
        }
    } else if acc == limit {
        None
    } else {
        Some(acc as i64)
    }
}

/// The expression that the atom from `from` up to `to` denotes.
fn read_atom(text: &str, chars: &Vec<char>, from: usize, to: usize) -> (r: Result<Expr, String>)
    requires
        chars@ == text@,
        from < to <= chars.len(),
    ensures
        match r {
            Ok(e) => classify(chars@.subrange(from as int, to as int)) == Ok::<
                ExprView,
                Seq<char>,
            >(e@),
            Err(m) => classify(chars@.subrange(from as int, to as int)) == Err::<
                ExprView,
                Seq<char>,
            >(m@),
        },
{
    let ghost atom = chars@.subrange(from as int, to as int);
    let len = to - from;
    proof {
        assert(atom.len() == len);
        assert(atom[0] == chars[from as int]);
        if len > 1 {
            assert(atom[1] == chars[from + 1]);
        }
        if len > 2 {
            assert(atom[2] == chars[from + 2]);
        }
    }
    if len == 3 && chars[from] == 'n' && chars[from + 1] == 'i' && chars[from + 2] == 'l' {
        assert(atom =~= seq!['n', 'i', 'l']);
        return Ok(Expr::Nil);
    }
    if len == 2 && chars[from] == '#' && chars[from + 1] == 't' {
        assert(atom =~= seq!['#', 't']);
        return Ok(Expr::Bool(true));
    }
    if len == 2 && chars[from] == '#' && chars[from + 1] == 'f' {
        assert(atom =~= seq!['#', 'f']);
        return Ok(Expr::Bool(false));
    }
    let first = chars[from];
    let numeric = digit(first) || (len > 1 && (first == '-' || first == '+') && digit(
        chars[from + 1],
    ));
    if numeric {
        match parse_number(chars, from, to) {
            Some(n) => Ok(Expr::Num(n)),
            None => Err(String::from_str("invalid number")),
        }
    } else {
        Ok(Expr::Symbol(String::from_str(text.substring_char(from, to))))
    }
}

/// Reads the expression that starts at position `i`.
fn read_expr_at(text: &str, chars: &Vec<char>, i: usize) -> (r: Result<(Expr, usize), String>)
    requires
        chars@ == text@,
        i <= chars.len(),
    ensures
        match r {
            Ok((e, k)) => read_expr(chars@, i as int) == Ok::<(ExprView, int), Seq<char>>(
                (e@, k as int),
            ) && i < k <= chars.len(),
            Err(m) => read_expr(chars@, i as int) == Err::<(ExprView, int), Seq<char>>(m@),
        },
    decreases chars.len() - i, 0nat,
{
    if i >= chars.len() {
        return Err(String::from_str("unexpected end of input"));
    }
    let c = chars[i];
    if space(c) {
        Err(String::from_str("expected an expression"))
    } else if c == '(' {
        match read_items_at(text, chars, i + 1, Some(')')) {
            Ok((items, k)) => {
                proof {
                    lemma_s_expr_view(items);
                }
                Ok((Expr::SExpr(items), k))
            },
            Err(m) => Err(m),
        }
    } else if c == '{' {
        match read_items_at(text, chars, i + 1, Some('}')) {
            Ok((items, k)) => {
                proof {
                    lemma_s_expr_view(items);
                }
                Ok((Expr::QExpr(Box::new(Expr::SExpr(items))), k))
            },
            Err(m) => Err(m),
        }
    } else if c == ')' || c == '}' {
        Err(String::from_str("unexpected closing bracket"))
    } else if c == '\'' {
        match read_expr_at(text, chars, i + 1) {
            Ok((e, k)) => Ok((Expr::QExpr(Box::new(e)), k)),
            Err(m) => Err(m),
        }
    } else if c == '"' {
        let e = find_string_end(chars, i + 1);
        if e >= chars.len() {
            Err(String::from_str("unterminated string"))
        } else {
            Ok((Expr::String(String::from_str(text.substring_char(i + 1, e))), e + 1))
        }
    } else {
        assert(!is_delimiter(chars@[i as int]));
        let e = find_atom_end(chars, i + 1);
        assert(atom_end(chars@, i as int) == e);
        match read_atom(text, chars, i, e) {
            Ok(v) => Ok((v, e)),
            Err(m) => Err(m),
        }
    }
}

/// Reads expressions from position `i` up to the closing character.
fn read_items_at(text: &str, chars: &Vec<char>, i: usize, close: Option<char>) -> (r: Result<
    (Vec<Expr>, usize),
    String,
>)
    requires
        chars@ == text@,
        i <= chars.len(),
    ensures
        match r {
            Ok((items, k)) => read_items(chars@, i as int, close, Seq::empty()) == Ok::<
                (Seq<ExprView>, int),
                Seq<char>,
            >((views(items@), k as int)) && i <= k <= chars.len(),
            Err(m) => read_items(chars@, i as int, close, Seq::empty()) == Err::<
                (Seq<ExprView>, int),
                Seq<char>,
            >(m@),
        },
    decreases chars.len() - i, 1nat,
{
    let ghost whole = read_items(chars@, i as int, close, Seq::empty());
    let mut items: Vec<Expr> = Vec::new();
    let mut pos: usize = i;
    proof {
        assert(views(items@) =~= Seq::empty());
    }
    loop
        invariant
            chars@ == text@,
            i <= pos <= chars.len(),
            whole == read_items(chars@, i as int, close, Seq::empty()),
            whole == read_items(chars@, pos as int, close, views(items@)),
        decreases chars.len() - pos,
    {
        if pos >= chars.len() {
            return match close {
                None => Ok((items, pos)),
                Some(_) => Err(String::from_str("unexpected end of input")),
            };
        }
        let c = chars[pos];
        if space(c) {
            pos += 1;
        } else if is_closing(close, c) {
            return Ok((items, pos + 1));
        } else {
            let ghost before = views(items@);
            match read_expr_at(text, chars, pos) {
                Ok((e, k)) => {
                    items.push(e);
                    assert(views(items@) =~= before.push(e@));
                    pos = k;
                },
                Err(m) => {
                    return Err(m);
                },
            }
        }
    }
}

/// Whether `c` is the closing character.
fn is_closing(close: Option<char>, c: char) -> (b: bool)
    ensures
        b == (close == Some(c)),
{
    match close {
        Some(k) => k == c,
        None => false,
    }
}

/// The reader of the language.
pub struct LangParser;

impl LangParser {
    /// Reads a program: the expressions of `input`, in order. Malformed
    /// input is `ParseFailed`, with the reason.
    pub fn parse(input: &str) -> (r: LangResult<Vec<Expr>>)
        ensures
            match r {
                Ok(v) => read_program(input@) == Ok::<Seq<ExprView>, LangErrorView>(views(v@)),
                Err(e) => read_program(input@) == Err::<Seq<ExprView>, LangErrorView>(e@),
            },
    {
        let chars = chars_of(input);
        match read_items_at(input, &chars, 0, None) {
            Ok((items, _)) => Ok(items),
            Err(m) => Err(LangError::ParseFailed(m)),
        }
    }
}

} // verus!
