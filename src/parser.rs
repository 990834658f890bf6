use vstd::prelude::*;
use crate::error::Error;
use crate::expr::{lemma_expr_views, lemma_expr_views_append, Expr, ExprV, expr_views};
use crate::geometry::{Geometry, GeometryV};
use crate::grammar;
use crate::number::{parse_number, Number};
use crate::ops::{lower_ascii, lower_ascii_exec, to_ascii_lower};
use crate::text::{chars_eq, chars_of, push_chars, str_is, string_of};

verus! {

broadcast use vstd::std_specs::vec::group_vec_axioms, vstd::seq::group_seq_axioms;

/// A parsed expression and the position after it.
pub type Parsed = Result<(Expr, usize), Error>;

/// An infix or postfix operator of cql2-text, as found at some position.
pub struct InfixOp {
    /// The operator's canonical name.
    pub name: String,
    /// Its precedence, from `1` (`OR`) upwards.
    pub prec: u32,
    /// Whether it groups to the right.
    pub right: bool,
    /// Whether `NOT` came before it (`NOT LIKE`, `NOT IN`, `NOT BETWEEN`, `IS NOT NULL`).
    pub negated: bool,
    /// Whether it is the postfix `IS NULL`.
    pub postfix: bool,
    /// The position after it.
    pub end: usize,
}

impl InfixOp {
    /// The operator's mathematical form.
    pub open spec fn view(&self) -> grammar::InfixV {
        grammar::InfixV {
            name: self.name@,
            prec: self.prec as nat,
            right: self.right,
            negated: self.negated,
            postfix: self.postfix,
            end: self.end as int,
        }
    }
}

/// A parse result as the grammar states it.
pub open spec fn parsed_view(r: Parsed) -> Option<(ExprV, int)> {
    match r {
        Ok((e, p)) => Some((e@, p as int)),
        Err(_) => None,
    }
}

/// The views of `s` with `x` after them.
pub proof fn lemma_views_push(s: Seq<Expr>, x: Expr)
    ensures
        expr_views(s.push(x)) == expr_views(s).push(x@),
{
    assert(s.push(x).subrange(0, s.len() as int) =~= s);
}

/// The views of a slice are the slice of the views.
pub proof fn lemma_views_sub(s: Seq<Expr>, a: int, b: int)
    requires
        0 <= a <= b <= s.len(),
    ensures
        expr_views(s.subrange(a, b)) == expr_views(s).subrange(a, b),
{
    lemma_expr_views(s);
    lemma_expr_views(s.subrange(a, b));
    assert(expr_views(s.subrange(a, b)) =~= expr_views(s).subrange(a, b));
}

/// The views of one expression.
pub proof fn lemma_views_one(x: Expr)
    ensures
        expr_views(seq![x]) == seq![x@],
{
    lemma_views_push(Seq::<Expr>::empty(), x);
    assert(Seq::<Expr>::empty().push(x) =~= seq![x]);
    assert(Seq::<ExprV>::empty().push(x@) =~= seq![x@]);
}

/// The views of two expressions.
pub proof fn lemma_views_two(x: Expr, y: Expr)
    ensures
        expr_views(seq![x, y]) == seq![x@, y@],
{
    lemma_views_one(x);
    lemma_views_push(seq![x], y);
    assert(seq![x].push(y) =~= seq![x, y]);
    assert(seq![x@].push(y@) =~= seq![x@, y@]);
}

/// A vector of one expression.
fn one(x: Expr) -> (v: Vec<Expr>)
    ensures
        expr_views(v@) == seq![x@],
{
    let ghost g = x;
    let v = vec![x];
    proof {
        assert(v@ =~= seq![g]);
        lemma_views_one(g);
    }
    v
}

/// A vector of two expressions.
fn two(x: Expr, y: Expr) -> (v: Vec<Expr>)
    ensures
        expr_views(v@) == seq![x@, y@],
{
    let ghost gx = x;
    let ghost gy = y;
    let v = vec![x, y];
    proof {
        assert(v@ =~= seq![gx, gy]);
        lemma_views_two(gx, gy);
    }
    v
}

/// An operation node.
pub fn operation(op: String, args: Vec<Expr>) -> (e: Expr)
    ensures
        e@ == (ExprV::Operation { op: op@, args: expr_views(args@) }),
{
    Expr::Operation { op, args }
}

fn is_ws(c: char) -> (r: bool)
    ensures
        r == grammar::is_space(c),
{
    c == ' ' || c == '\t' || c == '\n' || c == '\r'
}

fn is_word_char(c: char) -> (r: bool)
    ensures
        r == grammar::is_word(c),
{
    ('a' <= c && c <= 'z') || ('A' <= c && c <= 'Z') || ('0' <= c && c <= '9') || c == '_' || c
        == ':'
}

/// The position of the first character at or after `pos` that is no white space.
pub fn skip_ws(cs: &Vec<char>, pos: usize) -> (r: usize)
    requires
        pos <= cs.len(),
    ensures
        pos <= r <= cs.len(),
        r == grammar::skip_space(cs@, pos as int),
{
    let mut i = pos;
    while i < cs.len() && is_ws(cs[i])
        invariant
            pos <= i <= cs.len(),
            grammar::skip_space(cs@, pos as int) == grammar::skip_space(cs@, i as int),
        decreases cs.len() - i,
    {
        i = i + 1;
    }
    i
}

/// The end of the run of word characters that starts at `pos`.
fn word_end(cs: &Vec<char>, pos: usize) -> (r: usize)
    requires
        pos <= cs.len(),
    ensures
        pos <= r <= cs.len(),
        r == grammar::word_end(cs@, pos as int),
{
    let mut i = pos;
    while i < cs.len() && is_word_char(cs[i])
        invariant
            pos <= i <= cs.len(),
            grammar::word_end(cs@, pos as int) == grammar::word_end(cs@, i as int),
        decreases cs.len() - i,
    {
        i = i + 1;
    }
    i
}

/// The end of the run of digits (and points, where `points`) that starts at `pos`.
fn digits_end(cs: &Vec<char>, pos: usize, points: bool) -> (r: usize)
    requires
        pos <= cs.len(),
    ensures
        pos <= r <= cs.len(),
        r == grammar::digits_end(cs@, pos as int, points),
{
    let mut i = pos;
    while i < cs.len() && (('0' <= cs[i] && cs[i] <= '9') || (points && cs[i] == '.'))
        invariant
            pos <= i <= cs.len(),
            grammar::digits_end(cs@, pos as int, points) == grammar::digits_end(cs@, i as int, points),
        decreases cs.len() - i,
    {
        i = i + 1;
    }
    i
}

/// The characters from `a` to `b`, lower-cased.
fn lower_slice(cs: &Vec<char>, a: usize, b: usize) -> (r: Vec<char>)
    requires
        a <= b <= cs.len(),
    ensures
        r@ == lower_ascii(cs@.subrange(a as int, b as int)),
{
    let mut out: Vec<char> = Vec::new();
    let mut i = a;
    while i < b
        invariant
            a <= i <= b,
            b <= cs.len(),
            out@ == lower_ascii(cs@.subrange(a as int, i as int)),
        decreases b - i,
    {
        out.push(to_ascii_lower(cs[i]));
        i = i + 1;
        assert(out@ =~= lower_ascii(cs@.subrange(a as int, i as int)));
    }
    out
}

/// The word at `pos`, where it is the keyword `w` in any case: the position after it.
fn keyword_at(cs: &Vec<char>, pos: usize, w: &str) -> (r: Option<usize>)
    requires
        pos <= cs.len(),
    ensures
        r matches Some(e) ==> pos < e <= cs.len() && grammar::keyword(cs@, pos as int, w@) == Some(
            e as int,
        ),
        r is None ==> grammar::keyword(cs@, pos as int, w@) is None,
{
    let e = word_end(cs, pos);
    if e == pos {
        return None;
    }
    let word = lower_slice(cs, pos, e);
    let target = chars_of(w);
    if chars_eq(&word, &target) {
        Some(e)
    } else {
        None
    }
}

/// A word operator.
fn word_op(name: &str, prec: u32, right: bool, negated: bool, postfix: bool, end: usize) -> (r: InfixOp)
    ensures
        r.view() == grammar::word_op(name@, prec as nat, right, negated, postfix, end as int),
        r.end == end,
{
    InfixOp { name: name.to_owned(), prec, right, negated, postfix, end }
}

/// The infix or postfix operator at `pos`, if there is one.
pub fn infix_at(cs: &Vec<char>, pos: usize) -> (r: Option<InfixOp>)
    requires
        pos <= cs.len(),
    ensures
        r matches Some(op) ==> pos < op.end <= cs.len() && 1 <= op.prec <= 13 && grammar::infix(
            cs@,
            pos as int,
        ) == Some(op.view()),
        r is None ==> grammar::infix(cs@, pos as int) is None,
{
    let p = skip_ws(cs, pos);
    if p >= cs.len() {
        return None;
    }
    let c = cs[p];
    let next = if p + 1 < cs.len() {
        cs[p + 1]
    } else {
        ' '
    };
    let sym: Option<(&str, u32, bool, usize)> = if c == '<' && next == '>' {
        Some(("<>", 6, true, 2))
    } else if c == '!' && next == '=' {
        Some(("<>", 6, true, 2))
    } else if c == '<' && next == '=' {
        Some(("<=", 6, true, 2))
    } else if c == '>' && next == '=' {
        Some((">=", 6, true, 2))
    } else if c == '<' {
        Some(("<", 6, true, 1))
    } else if c == '>' {
        Some((">", 6, true, 1))
    } else if c == '=' {
        Some(("=", 5, true, 1))
    } else if c == '+' {
        Some(("+", 11, false, 1))
    } else if c == '-' {
        Some(("-", 11, false, 1))
    } else if c == '*' {
        Some(("*", 12, false, 1))
    } else if c == '/' {
        Some(("/", 12, false, 1))
    } else if c == '%' {
        Some(("%", 12, false, 1))
    } else if c == '^' {
        Some(("^", 13, false, 1))
    } else {
        None
    };
    assert(sym matches Some((n, pr, ri, l)) ==> grammar::symbol_op(c, next) == Some(
        (n@, pr as nat, ri, l as int),
    ) && p + l <= cs.len() && l >= 1);
    assert(sym is None ==> grammar::symbol_op(c, next) is None);
    if let Some((name, prec, right, len)) = sym {
        return Some(word_op(name, prec, right, false, false, p + len));
    }
    let mut start = p;
    let mut negated = false;
    if let Some(e) = keyword_at(cs, p, "not") {
        negated = true;
        start = skip_ws(cs, e);
    }
    if let Some(e) = keyword_at(cs, start, "or") {
        if !negated {
            return Some(word_op("or", 1, false, negated, false, e));
        }
    }
    if let Some(e) = keyword_at(cs, start, "and") {
        if !negated {
            return Some(word_op("and", 3, false, negated, false, e));
        }
    }
    if let Some(e) = keyword_at(cs, start, "between") {
        return Some(word_op("between", 2, false, negated, false, e));
    }
    if let Some(e) = keyword_at(cs, start, "like") {
        return Some(word_op("like", 7, true, negated, false, e));
    }
    if let Some(e) = keyword_at(cs, start, "in") {
        return Some(word_op("in", 8, false, negated, false, e));
    }
    if negated {
        return None;
    }
    if let Some(e) = keyword_at(cs, p, "is") {
        let mut q = skip_ws(cs, e);
        let mut neg = false;
        if let Some(e2) = keyword_at(cs, q, "not") {
            neg = true;
            q = skip_ws(cs, e2);
        }
        if let Some(e3) = keyword_at(cs, q, "null") {
            return Some(word_op("isnull", 9, false, neg, true, e3));
        }
        return None;
    }
    if let Some(e) = keyword_at(cs, p, "eq") {
        return Some(word_op("=", 5, true, false, false, e));
    }
    None
}

/// Wraps an expression in `not` where `negated` says so.
fn negate_if(negated: bool, e: Expr) -> (r: Expr)
    ensures
        r@ == grammar::negate(negated, e@),
{
    if negated {
        operation("not".to_owned(), one(e))
    } else {
        e
    }
}

/// Combines two operands with an infix operator: `and`/`or` chains stay flat, `BETWEEN`
/// takes its bounds apart from the `AND` that binds tighter than it, and a negated
/// operator is wrapped in `not`.
pub fn combine(op: &InfixOp, lhs: Expr, rhs: Expr) -> (r: Expr)
    ensures
        r@ == grammar::combine(op.view(), lhs@, rhs@),
{
    let ghost lv = lhs@;
    let ghost rv = rhs@;
    if str_is(op.name.as_str(), "between") {
        let (left_rest, s1): (Vec<Expr>, Expr) = match lhs {
            Expr::Operation { op: o, args } => {
                assert(lv == ExprV::Operation { op: o@, args: expr_views(args@) });
                proof {
                    lemma_expr_views(args@);
                }
                if str_is(o.as_str(), "and") && args.len() > 0 {
                    let mut a = args;
                    let ghost whole = a@;
                    let last = a.pop().unwrap();
                    proof {
                        assert(a@ =~= whole.subrange(0, whole.len() - 1));
                        lemma_views_sub(whole, 0, whole.len() - 1);
                        assert(expr_views(a@) =~= expr_views(whole).drop_last());
                    }
                    (a, last)
                } else {
                    (Vec::new(), Expr::Operation { op: o, args })
                }
            },
            other => (Vec::new(), other),
        };
        let ghost sv = s1@;
        let (neg, subject): (bool, Expr) = match s1 {
            Expr::Operation { op: o, args } => {
                assert(sv == ExprV::Operation { op: o@, args: expr_views(args@) });
                proof {
                    lemma_expr_views(args@);
                }
                if str_is(o.as_str(), "not") && args.len() == 1 {
                    let mut a = args;
                    let x = a.pop().unwrap();
                    (!op.negated, x)
                } else {
                    (op.negated, Expr::Operation { op: o, args })
                }
            },
            other => (op.negated, other),
        };
        let ghost subj = subject@;
        let (bargs, right_rest): (Vec<Expr>, Vec<Expr>) = match rhs {
            Expr::Operation { op: o, args } => {
                assert(rv == ExprV::Operation { op: o@, args: expr_views(args@) });
                if str_is(o.as_str(), "and") {
                    let mut all = one(subject);
                    let ghost first = all@;
                    let ghost av = args@;
                    let mut a = args;
                    all.append(&mut a);
                    proof {
                        assert(all@ =~= first + av);
                        lemma_expr_views_append(first, av);
                        lemma_expr_views(all@);
                        assert(expr_views(all@) == seq![subj] + rv->Operation_args);
                    }
                    if all.len() > 3 {
                        let ghost whole = all@;
                        let rest = all.split_off(3);
                        proof {
                            lemma_views_sub(whole, 0, 3);
                            lemma_views_sub(whole, 3, whole.len() as int);
                            assert(all@ =~= whole.subrange(0, 3));
                            assert(rest@ =~= whole.subrange(3, whole.len() as int));
                        }
                        (all, rest)
                    } else {
                        (all, Vec::new())
                    }
                } else {
                    let r = Expr::Operation { op: o, args };
                    (two(subject, r), Vec::new())
                }
            },
            other => (two(subject, other), Vec::new()),
        };
        assert(expr_views(left_rest@) == grammar::between_left(lv).0);
        assert(sv == grammar::between_left(lv).1);
        assert((neg, subject@) == grammar::between_subject(op.negated, sv));
        assert((expr_views(bargs@), expr_views(right_rest@)) == grammar::between_bounds(subject@, rv));
        let between = negate_if(neg, operation("between".to_owned(), bargs));
        if left_rest.len() == 0 && right_rest.len() == 0 {
            return between;
        }
        let mut all = left_rest;
        let ghost l0 = all@;
        all.push(between);
        let ghost b0 = all@;
        let ghost r0 = right_rest@;
        let mut rr = right_rest;
        all.append(&mut rr);
        proof {
            lemma_views_push(l0, between);
            assert(all@ =~= b0 + r0);
            lemma_expr_views_append(b0, r0);
        }
        operation("and".to_owned(), all)
    } else {
        let is_chain = str_is(op.name.as_str(), "and") || str_is(op.name.as_str(), "or");
        let base = match lhs {
            Expr::Operation { op: o, args } => {
                assert(lv == ExprV::Operation { op: o@, args: expr_views(args@) });
                if is_chain && str_is(o.as_str(), op.name.as_str()) {
                    let mut a = args;
                    let ghost a0 = a@;
                    a.push(rhs);
                    proof {
                        lemma_views_push(a0, rhs);
                    }
                    operation(op.name.clone(), a)
                } else {
                    let l = Expr::Operation { op: o, args };
                    operation(op.name.clone(), two(l, rhs))
                }
            },
            other => operation(op.name.clone(), two(other, rhs)),
        };
        negate_if(op.negated, base)
    }
}

/// The lower-cased name of an operator or function, with `eq` written `=`.
pub fn normalize_op(op: &str) -> (r: String)
    ensures
        r@ == grammar::normalized(op@),
{
    let l = lower_ascii_exec(op);
    if str_is(l.as_str(), "eq") {
        "=".to_owned()
    } else {
        l
    }
}

/// `s` without one pair of surrounding single or double quotes.
pub fn strip_quotes(s: &str) -> (r: String)
    ensures
        r@ == crate::temporal::unquoted(s@),
{
    let cs = chars_of(s);
    let u = crate::temporal::strip_quotes(&cs);
    string_of(&u)
}

/// The characters from `a` to `b`.
fn slice(cs: &Vec<char>, a: usize, b: usize) -> (r: Vec<char>)
    requires
        a <= b <= cs.len(),
    ensures
        r@ == cs@.subrange(a as int, b as int),
{
    crate::decode::slice_chars(cs, a, b)
}

/// A quoted result with `o` in front of its text.
pub open spec fn prepend(o: Seq<char>, r: Option<(Seq<char>, int)>) -> Option<(Seq<char>, int)> {
    match r {
        Some((t, e)) => Some((o + t, e)),
        None => None,
    }
}

/// A quoted text that starts at `pos` with the quote `q`, a doubled quote standing for one:
/// its content and the position after the closing quote.
fn quoted(cs: &Vec<char>, pos: usize, q: char) -> (r: Result<(Vec<char>, usize), Error>)
    requires
        pos < cs.len(),
    ensures
        r matches Ok((t, e)) ==> pos < e <= cs.len() && grammar::quoted(cs@, pos + 1, q) == Some(
            (t@, e as int),
        ),
        r is Err ==> grammar::quoted(cs@, pos + 1, q) is None,
{
    let mut out: Vec<char> = Vec::new();
    let mut i = pos + 1;
    assert(out@ + Seq::<char>::empty() =~= Seq::<char>::empty());
    while i < cs.len()
        invariant
            pos < i <= cs.len(),
            grammar::quoted(cs@, pos + 1, q) == prepend(out@, grammar::quoted(cs@, i as int, q)),
        decreases cs.len() - i,
    {
        let c = cs[i];
        let ghost o = out@;
        if c == q {
            if i + 1 < cs.len() && cs[i + 1] == q {
                out.push(q);
                proof {
                    let rest = grammar::quoted(cs@, i + 2, q);
                    if let Some((t, e)) = rest {
                        assert(o + (seq![q] + t) =~= out@ + t);
                    }
                }
                i = i + 2;
            } else {
                assert(o + Seq::<char>::empty() =~= o);
                return Ok((out, i + 1));
            }
        } else {
            out.push(c);
            proof {
                let rest = grammar::quoted(cs@, i + 1, q);
                if let Some((t, e)) = rest {
                    assert(o + (seq![c] + t) =~= out@ + t);
                }
            }
            i = i + 1;
        }
    }
    Err(Error::InvalidCql2Text(String::new()))
}

/// The end of a number that starts at `pos`: digits and a point, then an optional exponent.
fn number_end(cs: &Vec<char>, pos: usize) -> (r: usize)
    requires
        pos <= cs.len(),
    ensures
        pos <= r <= cs.len(),
        r == grammar::number_end(cs@, pos as int),
{
    let i = digits_end(cs, pos, true);
    if i < cs.len() && (cs[i] == 'e' || cs[i] == 'E') {
        let j = if i + 1 < cs.len() && (cs[i + 1] == '+' || cs[i + 1] == '-') {
            i + 2
        } else {
            i + 1
        };
        if j < cs.len() && '0' <= cs[j] && cs[j] <= '9' {
            return digits_end(cs, j, false);
        }
    }
    i
}

/// Whether the lower-cased word is a WKT geometry keyword.
fn is_geometry_word(w: &Vec<char>) -> (r: bool)
    ensures
        r == grammar::geometry_word(w@),
{
    chars_eq(w, &chars_of("point")) || chars_eq(w, &chars_of("linestring")) || chars_eq(
        w,
        &chars_of("polygon"),
    ) || chars_eq(w, &chars_of("multipoint")) || chars_eq(w, &chars_of("multilinestring"))
        || chars_eq(w, &chars_of("multipolygon")) || chars_eq(w, &chars_of("geometrycollection"))
}

/// How many coordinates the first coordinate tuple after the `(` at `open` holds.
fn first_tuple_len(cs: &Vec<char>, open: usize) -> (r: usize)
    requires
        open <= cs.len(),
    ensures
        r == grammar::first_tuple_len(cs@, open as int),
{
    let mut i = open;
    while i < cs.len() && (cs[i] == '(' || is_ws(cs[i]))
        invariant
            open <= i <= cs.len(),
            grammar::skip_open(cs@, open as int) == grammar::skip_open(cs@, i as int),
        decreases cs.len() - i,
    {
        i = i + 1;
    }
    let ghost s0 = i as int;
    let mut count: usize = 0;
    let mut in_token = false;
    while i < cs.len() && cs[i] != ',' && cs[i] != ')' && cs[i] != '('
        invariant
            open <= i <= cs.len(),
            count <= i,
            grammar::count_values(cs@, s0, 0, false) == grammar::count_values(
                cs@,
                i as int,
                count as nat,
                in_token,
            ),
        decreases cs.len() - i,
    {
        if is_ws(cs[i]) {
            in_token = false;
        } else if !in_token {
            in_token = true;
            count = count + 1;
        }
        i = i + 1;
    }
    if i < cs.len() && cs[i] == '(' {
        0
    } else {
        count
    }
}

/// A WKT geometry whose keyword runs from `start` to `kw_end`. Where the text gives no
/// dimension tag and its first tuple has three coordinates, a `Z` tag is written in.
fn parse_wkt(cs: &Vec<char>, start: usize, kw_end: usize) -> (r: Parsed)
    requires
        start < kw_end <= cs.len(),
    ensures
        r matches Ok((e, p)) ==> start < p <= cs.len(),
        parsed_view(r) == grammar::wkt_at(cs@, start as int, kw_end as int),
{
    let q0 = skip_ws(cs, kw_end);
    let te = word_end(cs, q0);
    let w = lower_slice(cs, q0, te);
    let tagged = te > q0 && (chars_eq(&w, &chars_of("z")) || chars_eq(&w, &chars_of("m"))
        || chars_eq(&w, &chars_of("zm")));
    if te > q0 && !tagged && chars_eq(&w, &chars_of("empty")) {
        let text = slice(cs, start, te);
        return Ok((Expr::Geometry(Geometry::Wkt(string_of(&text))), te));
    }
    let q = if tagged {
        skip_ws(cs, te)
    } else {
        q0
    };
    if q >= cs.len() || cs[q] != '(' {
        return Err(Error::InvalidCql2Text(String::new()));
    }
    assert(grammar::wkt_at(cs@, start as int, kw_end as int) == grammar::wkt_close(
        cs@,
        start as int,
        kw_end as int,
        q as int,
        tagged,
    ));
    let mut depth: usize = 0;
    let mut i = q;
    while i < cs.len()
        invariant
            q <= i <= cs.len(),
            start < kw_end <= q,
            grammar::wkt_at(cs@, start as int, kw_end as int) == grammar::wkt_close(
                cs@,
                start as int,
                kw_end as int,
                q as int,
                tagged,
            ),
            depth <= i,
            grammar::close_paren(cs@, q as int, 0) == grammar::close_paren(cs@, i as int, depth as nat),
        decreases cs.len() - i,
    {
        if cs[i] == '(' {
            depth = depth + 1;
        } else if cs[i] == ')' {
            if depth == 1 {
                let end = i + 1;
                if !tagged && first_tuple_len(cs, q) == 3 {
                    let mut text = slice(cs, start, kw_end);
                    crate::text::push_str(&mut text, " Z");
                    let rest = slice(cs, q, end);
                    push_chars(&mut text, &rest);
                    assert(text@ =~= cs@.subrange(start as int, kw_end as int) + " Z"@ + cs@.subrange(
                        q as int,
                        end as int,
                    ));
                    return Ok((Expr::Geometry(Geometry::Wkt(string_of(&text))), end));
                }
                let text = slice(cs, start, end);
                return Ok((Expr::Geometry(Geometry::Wkt(string_of(&text))), end));
            }
            if depth > 0 {
                depth = depth - 1;
            }
        }
        i = i + 1;
    }
    Err(Error::InvalidCql2Text(String::new()))
}

/// A comma-separated list of expressions up to the closing `close`, starting after the
/// opening bracket: the expressions, the position after `close`, and whether a comma came.
fn parse_args(cs: &Vec<char>, pos: usize, close: char) -> (r: Result<(Vec<Expr>, usize, bool), Error>)
    requires
        pos <= cs.len(),
    ensures
        r matches Ok((v, p, c)) ==> pos < p <= cs.len() && grammar::list(cs@, pos as int, close)
            == Some((expr_views(v@), p as int, c)),
        r is Err ==> grammar::list(cs@, pos as int, close) is None,
    decreases cs.len() - pos, 3nat,
{
    let mut out: Vec<Expr> = Vec::new();
    let mut p = skip_ws(cs, pos);
    if p < cs.len() && cs[p] == close {
        return Ok((out, p + 1, false));
    }
    let mut comma = false;
    assert(expr_views(out@) =~= Seq::<ExprV>::empty());
    loop
        invariant
            pos <= p <= cs.len(),
            grammar::list(cs@, pos as int, close) == grammar::items(
                cs@,
                p as int,
                close,
                expr_views(out@),
                comma,
            ),
        decreases cs.len() - p,
    {
        let (e, q) = parse_expr(cs, p, 0)?;
        let ghost before = out@;
        out.push(e);
        proof {
            lemma_views_push(before, e);
        }
        let r = skip_ws(cs, q);
        if r < cs.len() && cs[r] == ',' {
            comma = true;
            p = r + 1;
        } else if r < cs.len() && cs[r] == close {
            return Ok((out, r + 1, comma));
        } else {
            return Err(Error::InvalidCql2Text(String::new()));
        }
    }
}

/// A primary expression, or a prefix operator and its operand, at `pos`.
#[verifier::rlimit(100)]
fn parse_prefix(cs: &Vec<char>, pos: usize) -> (r: Parsed)
    requires
        pos <= cs.len(),
    ensures
        r matches Ok((e, p)) ==> pos < p <= cs.len(),
        parsed_view(r) == grammar::prefix(cs@, pos as int),
    decreases cs.len() - pos, 0nat,
{
    let p = skip_ws(cs, pos);
    if p >= cs.len() {
        return Err(Error::InvalidCql2Text(String::new()));
    }
    let c = cs[p];
    let next = if p + 1 < cs.len() {
        cs[p + 1]
    } else {
        ' '
    };
    if c == '(' || c == '[' {
        let close = if c == '(' {
            ')'
        } else {
            ']'
        };
        let (mut args, q, comma) = parse_args(cs, p + 1, close)?;
        proof {
            lemma_expr_views(args@);
        }
        if c == '(' && args.len() == 1 && !comma {
            let e = args.pop().unwrap();
            return Ok((e, q));
        }
        return Ok((Expr::Array(args), q));
    }
    if c == '\'' {
        let (v, q) = quoted(cs, p, '\'')?;
        return Ok((Expr::Literal(string_of(&v)), q));
    }
    if ('0' <= c && c <= '9') || (c == '.' && '0' <= next && next <= '9') || (c == '-' && (('0'
        <= next && next <= '9') || next == '.')) {
        let digits = if c == '-' {
            p + 1
        } else {
            p
        };
        let e = number_end(cs, digits);
        if e <= p {
            return Err(Error::InvalidCql2Text(String::new()));
        }
        let text = slice(cs, p, e);
        return match parse_number(&text) {
            Some(n) => Ok((Expr::Float(n), e)),
            None => Err(Error::ParseNumber(string_of(&text))),
        };
    }
    if c == '-' {
        let (x, q) = parse_expr(cs, p + 1, 28)?;
        let minus_one = Expr::Float(Number { mantissa: -1, scale: 0 });
        return Ok((operation("*".to_owned(), two(minus_one, x)), q));
    }
    let (name, we) = if c == '"' {
        quoted(cs, p, '"')?
    } else {
        let we = word_end(cs, p);
        if we == p {
            return Err(Error::InvalidCql2Text(String::new()));
        }
        (slice(cs, p, we), we)
    };
    let lw = lower_slice(cs, p, we);
    if c != '"' {
        if chars_eq(&lw, &chars_of("not")) {
            let (x, q) = parse_expr(cs, we, 8)?;
            return Ok((operation("not".to_owned(), one(x)), q));
        }
        if chars_eq(&lw, &chars_of("true")) {
            return Ok((Expr::Bool(true), we));
        }
        if chars_eq(&lw, &chars_of("false")) {
            return Ok((Expr::Bool(false), we));
        }
        if chars_eq(&lw, &chars_of("null")) {
            return Ok((Expr::Null, we));
        }
        if is_geometry_word(&lw) {
            return parse_wkt(cs, p, we);
        }
    }
    let after = skip_ws(cs, we);
    if after < cs.len() && cs[after] == '(' {
        let (args, q, _) = parse_args(cs, after + 1, ')')?;
        let ns = string_of(&name);
        let op = normalize_op(ns.as_str());
        proof {
            lemma_expr_views(args@);
        }
        if c != '"' && chars_eq(&lw, &chars_of("bbox")) {
            return Ok((Expr::BBox { bbox: args }, q));
        }
        if str_is(op.as_str(), "interval") {
            return Ok((Expr::Interval { interval: args }, q));
        }
        if str_is(op.as_str(), "date") || str_is(op.as_str(), "timestamp") {
            let is_date = str_is(op.as_str(), "date");
            let mut a = args;
            if a.len() == 0 {
                return Err(Error::MissingArgument(op));
            }
            let first = a.remove(0);
            if is_date {
                return Ok((Expr::Date { date: Box::new(first) }, q));
            } else {
                return Ok((Expr::Timestamp { timestamp: Box::new(first) }, q));
            }
        }
        return Ok((operation(op, args), q));
    }
    Ok((Expr::Property { property: string_of(&name) }, we))
}

/// An expression at `pos` whose operators bind at least as tightly as `min_bp` asks:
/// operators of precedence `p` bind at `2p`, and their right operand takes `2p + 1` where
/// they group to the left, `2p` where they group to the right.
fn parse_expr(cs: &Vec<char>, pos: usize, min_bp: u32) -> (r: Parsed)
    requires
        pos <= cs.len(),
    ensures
        r matches Ok((e, p)) ==> pos < p <= cs.len(),
        parsed_view(r) == grammar::expr(cs@, pos as int, min_bp as nat),
    decreases cs.len() - pos, 1nat,
{
    let (mut lhs, mut p) = match parse_prefix(cs, pos) {
        Ok(x) => x,
        Err(e) => {
            assert(grammar::prefix(cs@, pos as int) is None);
            return Err(e);
        },
    };
    assert(grammar::expr(cs@, pos as int, min_bp as nat) == grammar::operators(
        cs@,
        min_bp as nat,
        lhs@,
        p as int,
    ));
    loop
        invariant_except_break
            pos < p <= cs.len(),
            grammar::expr(cs@, pos as int, min_bp as nat) == grammar::operators(
                cs@,
                min_bp as nat,
                lhs@,
                p as int,
            ),
        ensures
            pos < p <= cs.len(),
            grammar::expr(cs@, pos as int, min_bp as nat) == Some((lhs@, p as int)),
        decreases cs.len() - p,
    {
        let op = match infix_at(cs, p) {
            Some(op) => op,
            None => {
                assert(grammar::operators(cs@, min_bp as nat, lhs@, p as int) == Some((lhs@, p as int)));
                break;
            },
        };
        if 2 * op.prec < min_bp {
            assert(grammar::operators(cs@, min_bp as nat, lhs@, p as int) == Some((lhs@, p as int)));
            break;
        }
        if op.postfix {
            lhs = negate_if(op.negated, operation("isnull".to_owned(), one(lhs)));
            p = op.end;
        } else {
            let rbp = if op.right {
                2 * op.prec
            } else {
                2 * op.prec + 1
            };
            let (rhs, q) = match parse_expr(cs, op.end, rbp) {
                Ok(x) => x,
                Err(e) => {
                    assert(grammar::expr(cs@, op.end as int, rbp as nat) is None);
                    assert(grammar::operators(cs@, min_bp as nat, lhs@, p as int) is None);
                    return Err(e);
                },
            };
            assert(grammar::operators(cs@, min_bp as nat, lhs@, p as int) == grammar::operators(
                cs@,
                min_bp as nat,
                grammar::combine(op.view(), lhs@, rhs@),
                q as int,
            ));
            lhs = combine(&op, lhs, rhs);
            p = q;
        }
    }
    Ok((lhs, p))
}

/// Parses a cql2-text string into an expression: the tree that the grammar gives the text,
/// an error where the text is no single expression.
pub fn parse_text(s: &str) -> (r: Result<Expr, Error>)
    ensures
        r matches Ok(e) ==> grammar::text_tree(s@) == Some(e@),
        r is Err ==> grammar::text_tree(s@) is None,
{
    let cs = chars_of(s);
    let res = parse_expr(&cs, 0, 0);
    match res {
        Ok((e, p)) => {
            let q = skip_ws(&cs, p);
            if q == cs.len() {
                Ok(e)
            } else {
                Err(Error::InvalidCql2Text(s.to_owned()))
            }
        },
        Err(Error::InvalidCql2Text(_)) => Err(Error::InvalidCql2Text(s.to_owned())),
        Err(e) => Err(e),
    }
}

} // verus!
