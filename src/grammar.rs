use vstd::prelude::*;
use crate::expr::ExprV;
use crate::geometry::GeometryV;
use crate::number::{number_of, Number};
use crate::ops::lower_ascii;

verus! {

/// White space between tokens.
pub open spec fn is_space(c: char) -> bool {
    c == ' ' || c == '\t' || c == '\n' || c == '\r'
}

/// A character of a bare word: a letter, a digit, `_` or `:`.
pub open spec fn is_word(c: char) -> bool {
    ('a' <= c && c <= 'z') || ('A' <= c && c <= 'Z') || ('0' <= c && c <= '9') || c == '_' || c
        == ':'
}

/// Whether `c` is an ASCII digit.
pub open spec fn is_dig(c: char) -> bool {
    '0' <= c && c <= '9'
}

/// The first position at or after `p` that is no white space.
pub open spec fn skip_space(cs: Seq<char>, p: int) -> int
    decreases cs.len() - p,
{
    if 0 <= p < cs.len() && is_space(cs[p]) {
        skip_space(cs, p + 1)
    } else {
        p
    }
}

/// The end of the run of word characters from `p`.
pub open spec fn word_end(cs: Seq<char>, p: int) -> int
    decreases cs.len() - p,
{
    if 0 <= p < cs.len() && is_word(cs[p]) {
        word_end(cs, p + 1)
    } else {
        p
    }
}

/// The end of the run of digits and points from `p`.
pub open spec fn digits_end(cs: Seq<char>, p: int, points: bool) -> int
    decreases cs.len() - p,
{
    if 0 <= p < cs.len() && (is_dig(cs[p]) || (points && cs[p] == '.')) {
        digits_end(cs, p + 1, points)
    } else {
        p
    }
}

/// The word at `p`, where it is `w` in any case of its letters: the position after it.
pub open spec fn keyword(cs: Seq<char>, p: int, w: Seq<char>) -> Option<int> {
    let e = word_end(cs, p);
    if e == p || !(0 <= p <= e <= cs.len()) {
        None
    } else if lower_ascii(cs.subrange(p, e)) == w {
        Some(e)
    } else {
        None
    }
}

/// An infix or postfix operator: its canonical name, precedence (`OR` lowest), whether it
/// groups to the right, whether `NOT` came before it, whether it is `IS [NOT] NULL`, and the
/// position after it.
pub struct InfixV {
    pub name: Seq<char>,
    pub prec: nat,
    pub right: bool,
    pub negated: bool,
    pub postfix: bool,
    pub end: int,
}

/// The symbol operators: name, precedence, right grouping, length.
pub open spec fn symbol_op(c: char, next: char) -> Option<(Seq<char>, nat, bool, int)> {
    if c == '<' && next == '>' {
        Some(("<>"@, 6, true, 2))
    } else if c == '!' && next == '=' {
        Some(("<>"@, 6, true, 2))
    } else if c == '<' && next == '=' {
        Some(("<="@, 6, true, 2))
    } else if c == '>' && next == '=' {
        Some((">="@, 6, true, 2))
    } else if c == '<' {
        Some(("<"@, 6, true, 1))
    } else if c == '>' {
        Some((">"@, 6, true, 1))
    } else if c == '=' {
        Some(("="@, 5, true, 1))
    } else if c == '+' {
        Some(("+"@, 11, false, 1))
    } else if c == '-' {
        Some(("-"@, 11, false, 1))
    } else if c == '*' {
        Some(("*"@, 12, false, 1))
    } else if c == '/' {
        Some(("/"@, 12, false, 1))
    } else if c == '%' {
        Some(("%"@, 12, false, 1))
    } else if c == '^' {
        Some(("^"@, 13, false, 1))
    } else {
        None
    }
}

/// A word operator.
pub open spec fn word_op(name: Seq<char>, prec: nat, right: bool, negated: bool, postfix: bool, end: int) -> InfixV {
    InfixV { name, prec, right, negated, postfix, end }
}

/// The infix or postfix operator at `pos`, after white space: precedence from low to high
/// `OR`, `BETWEEN`, `AND`, `=`, the comparisons, `LIKE`, `IN`, `IS [NOT] NULL`, `+ -`,
/// `* / %`, `^`; `NOT` may come before `BETWEEN`, `LIKE` and `IN`; `EQ` is `=`.
pub open spec fn infix(cs: Seq<char>, pos: int) -> Option<InfixV> {
    let p = skip_space(cs, pos);
    if !(0 <= p < cs.len()) {
        None
    } else {
        let c = cs[p];
        let next = if p + 1 < cs.len() {
            cs[p + 1]
        } else {
            ' '
        };
        match symbol_op(c, next) {
            Some((name, prec, right, len)) => Some(word_op(name, prec, right, false, false, p + len)),
            None => {
                let (start, negated) = match keyword(cs, p, "not"@) {
                    Some(e) => (skip_space(cs, e), true),
                    None => (p, false),
                };
                if keyword(cs, start, "or"@) is Some && !negated {
                    Some(word_op("or"@, 1, false, negated, false, keyword(cs, start, "or"@)->0))
                } else if keyword(cs, start, "and"@) is Some && !negated {
                    Some(word_op("and"@, 3, false, negated, false, keyword(cs, start, "and"@)->0))
                } else if keyword(cs, start, "between"@) is Some {
                    Some(word_op("between"@, 2, false, negated, false, keyword(cs, start, "between"@)->0))
                } else if keyword(cs, start, "like"@) is Some {
                    Some(word_op("like"@, 7, true, negated, false, keyword(cs, start, "like"@)->0))
                } else if keyword(cs, start, "in"@) is Some {
                    Some(word_op("in"@, 8, false, negated, false, keyword(cs, start, "in"@)->0))
                } else if negated {
                    None
                } else if keyword(cs, p, "is"@) is Some {
                    let q0 = skip_space(cs, keyword(cs, p, "is"@)->0);
                    let (q, neg) = match keyword(cs, q0, "not"@) {
                        Some(e2) => (skip_space(cs, e2), true),
                        None => (q0, false),
                    };
                    match keyword(cs, q, "null"@) {
                        Some(e3) => Some(word_op("isnull"@, 9, false, neg, true, e3)),
                        None => None,
                    }
                } else if keyword(cs, p, "eq"@) is Some {
                    Some(word_op("="@, 5, true, false, false, keyword(cs, p, "eq"@)->0))
                } else {
                    None
                }
            },
        }
    }
}

/// `e` wrapped in `not` where `negated` says so.
pub open spec fn negate(negated: bool, e: ExprV) -> ExprV {
    if negated {
        ExprV::Operation { op: "not"@, args: seq![e] }
    } else {
        e
    }
}

/// The left operand of `BETWEEN` split into the conjuncts before it and its subject: the last
/// conjunct of an `and`, else the operand itself.
pub open spec fn between_left(lhs: ExprV) -> (Seq<ExprV>, ExprV) {
    if lhs is Operation && lhs->Operation_op == "and"@ && lhs->Operation_args.len() > 0 {
        (lhs->Operation_args.drop_last(), lhs->Operation_args.last())
    } else {
        (Seq::<ExprV>::empty(), lhs)
    }
}

/// The subject of `BETWEEN` with a `not` around it taken off, which turns the negation.
pub open spec fn between_subject(negated: bool, s1: ExprV) -> (bool, ExprV) {
    if s1 is Operation && s1->Operation_op == "not"@ && s1->Operation_args.len() == 1 {
        (!negated, s1->Operation_args[0])
    } else {
        (negated, s1)
    }
}

/// The arguments of `BETWEEN` (subject and the first two conjuncts of an `and` on the right,
/// or the right operand) and the conjuncts after them.
pub open spec fn between_bounds(subject: ExprV, rhs: ExprV) -> (Seq<ExprV>, Seq<ExprV>) {
    if rhs is Operation && rhs->Operation_op == "and"@ {
        let all = seq![subject] + rhs->Operation_args;
        if all.len() > 3 {
            (all.subrange(0, 3), all.subrange(3, all.len() as int))
        } else {
            (all, Seq::<ExprV>::empty())
        }
    } else {
        (seq![subject, rhs], Seq::<ExprV>::empty())
    }
}

/// Two operands joined by an infix operator. A chain of `and` (or `or`) stays one flat node.
/// `BETWEEN`, which binds more loosely than `AND`, takes its subject from the end of an `AND`
/// on its left and its bounds from the start of the `AND` on its right; the other conjuncts
/// stay in an `and` around it. `NOT BETWEEN`, `NOT LIKE` and `NOT IN` are wrapped in `not`.
pub open spec fn combine(op: InfixV, lhs: ExprV, rhs: ExprV) -> ExprV {
    if op.name == "between"@ {
        let (left_rest, s1) = between_left(lhs);
        let (neg, subject) = between_subject(op.negated, s1);
        let (bargs, right_rest) = between_bounds(subject, rhs);
        let between = negate(neg, ExprV::Operation { op: "between"@, args: bargs });
        if left_rest.len() == 0 && right_rest.len() == 0 {
            between
        } else {
            ExprV::Operation { op: "and"@, args: left_rest.push(between) + right_rest }
        }
    } else {
        let chain = op.name == "and"@ || op.name == "or"@;
        let base = if lhs is Operation && chain && lhs->Operation_op == op.name {
            ExprV::Operation { op: op.name, args: lhs->Operation_args.push(rhs) }
        } else {
            ExprV::Operation { op: op.name, args: seq![lhs, rhs] }
        };
        negate(op.negated, base)
    }
}

/// A text in quotes `q` from position `i` (after the opening quote), a doubled quote standing
/// for one: its content and the position after the closing quote.
pub open spec fn quoted(cs: Seq<char>, i: int, q: char) -> Option<(Seq<char>, int)>
    decreases cs.len() - i,
{
    if !(0 <= i < cs.len()) {
        None
    } else if cs[i] == q {
        if i + 1 < cs.len() && cs[i + 1] == q {
            match quoted(cs, i + 2, q) {
                Some((t, e)) => Some((seq![q] + t, e)),
                None => None,
            }
        } else {
            Some((seq![], i + 1))
        }
    } else {
        match quoted(cs, i + 1, q) {
            Some((t, e)) => Some((seq![cs[i]] + t, e)),
            None => None,
        }
    }
}

/// The end of a number from `p`: digits and points, then an exponent where digits follow
/// the `e` and its sign.
pub open spec fn number_end(cs: Seq<char>, p: int) -> int {
    let i = digits_end(cs, p, true);
    if 0 <= i < cs.len() && (cs[i] == 'e' || cs[i] == 'E') {
        let j = if i + 1 < cs.len() && (cs[i + 1] == '+' || cs[i + 1] == '-') {
            i + 2
        } else {
            i + 1
        };
        if j < cs.len() && is_dig(cs[j]) {
            digits_end(cs, j, false)
        } else {
            i
        }
    } else {
        i
    }
}

/// Whether a lower-cased word is a WKT geometry keyword.
pub open spec fn geometry_word(w: Seq<char>) -> bool {
    w == "point"@ || w == "linestring"@ || w == "polygon"@ || w == "multipoint"@ || w
        == "multilinestring"@ || w == "multipolygon"@ || w == "geometrycollection"@
}

/// The position after the `)` that closes the bracket open at depth `depth` before `i`.
pub open spec fn close_paren(cs: Seq<char>, i: int, depth: nat) -> Option<int>
    decreases cs.len() - i,
{
    if !(0 <= i < cs.len()) {
        None
    } else if cs[i] == '(' {
        close_paren(cs, i + 1, depth + 1)
    } else if cs[i] == ')' {
        if depth == 1 {
            Some(i + 1)
        } else {
            close_paren(cs, i + 1, if depth > 0 { (depth - 1) as nat } else { 0 })
        }
    } else {
        close_paren(cs, i + 1, depth)
    }
}

/// The first position from `i` that is neither `(` nor white space.
pub open spec fn skip_open(cs: Seq<char>, i: int) -> int
    decreases cs.len() - i,
{
    if 0 <= i < cs.len() && (cs[i] == '(' || is_space(cs[i])) {
        skip_open(cs, i + 1)
    } else {
        i
    }
}

/// How many space-separated values stand from `i` to the next `,`, `(` or `)`, and where
/// they end.
pub open spec fn count_values(cs: Seq<char>, i: int, count: nat, in_value: bool) -> (int, nat)
    decreases cs.len() - i,
{
    if 0 <= i < cs.len() && cs[i] != ',' && cs[i] != ')' && cs[i] != '(' {
        if is_space(cs[i]) {
            count_values(cs, i + 1, count, false)
        } else if !in_value {
            count_values(cs, i + 1, count + 1, true)
        } else {
            count_values(cs, i + 1, count, true)
        }
    } else {
        (i, count)
    }
}

/// How many coordinates the first tuple after the `(` at `open` holds (`0` where it opens a
/// further bracket).
pub open spec fn first_tuple_len(cs: Seq<char>, open: int) -> nat {
    let (i, count) = count_values(cs, skip_open(cs, open), 0, false);
    if 0 <= i < cs.len() && cs[i] == '(' {
        0
    } else {
        count
    }
}

/// A WKT geometry whose keyword runs from `start` to `kw_end`, as written; where it has no
/// `Z`, `M` or `ZM` tag and its first tuple has three coordinates, with ` Z` written after the
/// keyword.
pub open spec fn wkt_at(cs: Seq<char>, start: int, kw_end: int) -> Option<(ExprV, int)> {
    let q0 = skip_space(cs, kw_end);
    let te = word_end(cs, q0);
    let w = lower_ascii(cs.subrange(q0, te));
    let tagged = te > q0 && (w == "z"@ || w == "m"@ || w == "zm"@);
    if te > q0 && !tagged && w == "empty"@ {
        Some((ExprV::Geometry(GeometryV::Wkt(cs.subrange(start, te))), te))
    } else {
        let q = if tagged {
            skip_space(cs, te)
        } else {
            q0
        };
        if !(0 <= q < cs.len()) || cs[q] != '(' {
            None
        } else {
            wkt_close(cs, start, kw_end, q, tagged)
        }
    }
}

/// The WKT geometry from `start` whose brackets open at `q`, up to the bracket that closes
/// them; with ` Z` after the keyword where it has no tag and three coordinates.
pub open spec fn wkt_close(cs: Seq<char>, start: int, kw_end: int, q: int, tagged: bool) -> Option<(ExprV, int)> {
    match close_paren(cs, q, 0) {
        None => None,
        Some(end) => if !tagged && first_tuple_len(cs, q) == 3 {
            Some(
                (
                    ExprV::Geometry(
                        GeometryV::Wkt(cs.subrange(start, kw_end) + " Z"@ + cs.subrange(q, end)),
                    ),
                    end,
                ),
            )
        } else {
            Some((ExprV::Geometry(GeometryV::Wkt(cs.subrange(start, end))), end))
        },
    }
}

/// An operator or function name lower-cased, `eq` written `=`.
pub open spec fn normalized(n: Seq<char>) -> Seq<char> {
    if lower_ascii(n) == "eq"@ {
        "="@
    } else {
        lower_ascii(n)
    }
}

/// A call of the function written `name` (quoted where `quoted_name`), from `p` to `we`, on
/// `args`: `BBOX`, `INTERVAL`, `DATE` and `TIMESTAMP` build their constructs, any other name
/// an operation.
pub open spec fn call(cs: Seq<char>, p: int, we: int, quoted_name: bool, name: Seq<char>, args: Seq<ExprV>) -> Option<ExprV> {
    let op = normalized(name);
    if !quoted_name && lower_ascii(cs.subrange(p, we)) == "bbox"@ {
        Some(ExprV::BBox { bbox: args })
    } else if op == "interval"@ {
        Some(ExprV::Interval { interval: args })
    } else if op == "date"@ || op == "timestamp"@ {
        if args.len() == 0 {
            None
        } else if op == "date"@ {
            Some(ExprV::Date { date: Box::new(args[0]) })
        } else {
            Some(ExprV::Timestamp { timestamp: Box::new(args[0]) })
        }
    } else {
        Some(ExprV::Operation { op, args })
    }
}

/// The primary expression, or prefix operator and operand, at `pos`: a bracketed list (one
/// element in round brackets without a comma is that element), a string, a number, unary
/// `-` as `*(-1, x)`, `NOT`, `TRUE`, `FALSE`, `NULL`, a WKT geometry, a call, or a property.
pub open spec fn prefix(cs: Seq<char>, pos: int) -> Option<(ExprV, int)>
    decreases cs.len() - pos, 0nat,
{
    let p = skip_space(cs, pos);
    if p < pos || !(0 <= p < cs.len()) {
        None
    } else {
        let c = cs[p];
        let next = if p + 1 < cs.len() {
            cs[p + 1]
        } else {
            ' '
        };
        if c == '(' || c == '[' {
            let close = if c == '(' {
                ')'
            } else {
                ']'
            };
            match list(cs, p + 1, close) {
                None => None,
                Some((args, q, comma)) => if c == '(' && args.len() == 1 && !comma {
                    Some((args[0], q))
                } else {
                    Some((ExprV::Array(args), q))
                },
            }
        } else if c == '\'' {
            match quoted(cs, p + 1, '\'') {
                Some((v, q)) => Some((ExprV::Literal(v), q)),
                None => None,
            }
        } else if is_dig(c) || (c == '.' && is_dig(next)) || (c == '-' && (is_dig(next) || next
            == '.')) {
            let e = number_end(cs, if c == '-' { p + 1 } else { p });
            if !(p < e <= cs.len()) {
                None
            } else {
                match number_of(cs.subrange(p, e)) {
                    Some(n) => Some((ExprV::Float(n), e)),
                    None => None,
                }
            }
        } else if c == '-' {
            match expr(cs, p + 1, 28) {
                Some((x, q)) => Some(
                    (
                        ExprV::Operation {
                            op: "*"@,
                            args: seq![ExprV::Float(Number { mantissa: -1i64, scale: 0u32 }), x],
                        },
                        q,
                    ),
                ),
                None => None,
            }
        } else {
            let named: Option<(Seq<char>, int)> = if c == '"' {
                quoted(cs, p + 1, '"')
            } else {
                let we = word_end(cs, p);
                if we <= p || we > cs.len() {
                    None
                } else {
                    Some((cs.subrange(p, we), we))
                }
            };
            match named {
                None => None,
                Some((name, we)) => if we <= p || we > cs.len() {
                    None
                } else {
                    let lw = lower_ascii(cs.subrange(p, we));
                    if c != '"' && lw == "not"@ {
                        match expr(cs, we, 8) {
                            Some((x, q)) => Some((ExprV::Operation { op: "not"@, args: seq![x] }, q)),
                            None => None,
                        }
                    } else if c != '"' && lw == "true"@ {
                        Some((ExprV::Bool(true), we))
                    } else if c != '"' && lw == "false"@ {
                        Some((ExprV::Bool(false), we))
                    } else if c != '"' && lw == "null"@ {
                        Some((ExprV::Null, we))
                    } else if c != '"' && geometry_word(lw) {
                        wkt_at(cs, p, we)
                    } else {
                        let after = skip_space(cs, we);
                        if after >= we && 0 <= after < cs.len() && cs[after] == '(' {
                            match list(cs, after + 1, ')') {
                                None => None,
                                Some((args, q, _)) => match call(cs, p, we, c == '"', name, args) {
                                    Some(e) => Some((e, q)),
                                    None => None,
                                },
                            }
                        } else {
                            Some((ExprV::Property { property: name }, we))
                        }
                    }
                },
            }
        }
    }
}

/// A comma-separated list of expressions up to `close`, from after the opening bracket: the
/// expressions, the position after `close`, and whether a comma came.
pub open spec fn list(cs: Seq<char>, pos: int, close: char) -> Option<(Seq<ExprV>, int, bool)>
    decreases cs.len() - pos, 3nat,
{
    let p = skip_space(cs, pos);
    if p < pos || p > cs.len() {
        None
    } else if 0 <= p < cs.len() && cs[p] == close {
        Some((seq![], p + 1, false))
    } else {
        items(cs, p, close, seq![], false)
    }
}

/// The rest of a list from `p`, after the items `acc`.
pub open spec fn items(cs: Seq<char>, p: int, close: char, acc: Seq<ExprV>, comma: bool) -> Option<(Seq<ExprV>, int, bool)>
    decreases cs.len() - p, 2nat,
{
    match expr(cs, p, 0) {
        None => None,
        Some((e, q)) => if !(p < q <= cs.len()) {
            None
        } else {
            let r = skip_space(cs, q);
            if r < q {
                None
            } else if 0 <= r < cs.len() && cs[r] == ',' {
                items(cs, r + 1, close, acc.push(e), true)
            } else if 0 <= r < cs.len() && cs[r] == close {
                Some((acc.push(e), r + 1, comma))
            } else {
                None
            }
        },
    }
}

/// The expression at `pos` whose operators bind at least as tightly as `min_bp`: an
/// operator of precedence `p` binds at `2p`, its right operand at `2p + 1` where it groups to
/// the left and at `2p` where it groups to the right.
pub open spec fn expr(cs: Seq<char>, pos: int, min_bp: nat) -> Option<(ExprV, int)>
    decreases cs.len() - pos, 1nat,
{
    match prefix(cs, pos) {
        None => None,
        Some((lhs, p)) => if !(pos < p <= cs.len()) {
            None
        } else {
            operators(cs, min_bp, lhs, p)
        },
    }
}

/// The operators that follow `lhs`, which ends at `p`, while they bind at least at `min_bp`.
pub open spec fn operators(cs: Seq<char>, min_bp: nat, lhs: ExprV, p: int) -> Option<(ExprV, int)>
    decreases cs.len() - p, 4nat,
{
    match infix(cs, p) {
        None => Some((lhs, p)),
        Some(op) => if 2 * op.prec < min_bp {
            Some((lhs, p))
        } else if !(p < op.end <= cs.len()) {
            None
        } else if op.postfix {
            operators(
                cs,
                min_bp,
                negate(op.negated, ExprV::Operation { op: "isnull"@, args: seq![lhs] }),
                op.end,
            )
        } else {
            let rbp = if op.right {
                2 * op.prec
            } else {
                2 * op.prec + 1
            };
            match expr(cs, op.end, rbp) {
                None => None,
                Some((rhs, q)) => if !(op.end < q <= cs.len()) {
                    None
                } else {
                    operators(cs, min_bp, combine(op, lhs, rhs), q)
                },
            }
        },
    }
}

/// The expression tree that a cql2-text string writes: one expression from the start, with
/// nothing but white space after it; `None` where the text is no such expression.
pub open spec fn text_tree(s: Seq<char>) -> Option<ExprV> {
    match expr(s, 0, 0) {
        Some((e, p)) => if skip_space(s, p) == s.len() {
            Some(e)
        } else {
            None
        },
        None => None,
    }
}

} // verus!
