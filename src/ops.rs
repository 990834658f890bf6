use like::Like;
use vstd::prelude::*;
use crate::expr::{Expr, ExprV, text_of, texts_of};
use crate::number::{checked_number, sum_parts};
use crate::geometry::{spatial_op, spatial_value};
use crate::temporal::{temporal_op, temporal_value};
use crate::text::{ascii_lower, chars_eq, chars_lt, chars_of, seq_lt, str_is, string_of};

verus! {

broadcast use vstd::std_specs::vec::group_vec_axioms, vstd::seq::group_seq_axioms;

/// Whether `op` is one of the eight spatial operators.
pub open spec fn is_spatial_op(op: Seq<char>) -> bool {
    op == "s_equals"@ || op == "s_intersects"@ || op == "s_disjoint"@ || op == "s_touches"@ || op
        == "s_within"@ || op == "s_overlaps"@ || op == "s_crosses"@ || op == "s_contains"@
}

/// Whether `op` is one of the temporal operators.
pub open spec fn is_temporal_op(op: Seq<char>) -> bool {
    op == "t_before"@ || op == "t_after"@ || op == "t_meets"@ || op == "t_metby"@ || op
        == "t_overlaps"@ || op == "t_overlappedby"@ || op == "t_starts"@ || op == "t_startedby"@
        || op == "t_during"@ || op == "t_contains"@ || op == "t_finishes"@ || op
        == "t_finishedby"@ || op == "t_equals"@ || op == "t_disjoint"@ || op == "t_intersects"@
        || op == "anyinteracts"@
}

/// Whether `op` is an arithmetic operator.
pub open spec fn is_arith_op(op: Seq<char>) -> bool {
    op == "+"@ || op == "-"@ || op == "*"@ || op == "/"@ || op == "%"@ || op == "^"@
}

/// Whether `op` is an equality or comparison operator.
pub open spec fn is_cmp_op(op: Seq<char>) -> bool {
    op == "="@ || op == "<>"@ || op == "<"@ || op == "<="@ || op == ">"@ || op == ">="@
}

/// Whether `op` is an array operator.
pub open spec fn is_array_op(op: Seq<char>) -> bool {
    op == "a_equals"@ || op == "a_contains"@ || op == "a_containedby"@ || op == "a_overlaps"@
}

/// Whether two expressions are of the same variant.
pub open spec fn same_kind(a: ExprV, b: ExprV) -> bool {
    (a is Operation && b is Operation) || (a is Interval && b is Interval) || (a is Timestamp
        && b is Timestamp) || (a is Date && b is Date) || (a is Property && b is Property) || (
    a is BBox && b is BBox) || (a is Float && b is Float) || (a is Literal && b is Literal) || (
    a is Bool && b is Bool) || (a is Null && b is Null) || (a is Array && b is Array) || (
    a is Geometry && b is Geometry)
}

/// Whether two expressions are of the same variant.
pub fn same_kind_exec(a: &Expr, b: &Expr) -> (r: bool)
    ensures
        r == same_kind(a@, b@),
{
    match (a, b) {
        (Expr::Operation { .. }, Expr::Operation { .. }) => true,
        (Expr::Interval { .. }, Expr::Interval { .. }) => true,
        (Expr::Timestamp { .. }, Expr::Timestamp { .. }) => true,
        (Expr::Date { .. }, Expr::Date { .. }) => true,
        (Expr::Property { .. }, Expr::Property { .. }) => true,
        (Expr::BBox { .. }, Expr::BBox { .. }) => true,
        (Expr::Float(_), Expr::Float(_)) => true,
        (Expr::Literal(_), Expr::Literal(_)) => true,
        (Expr::Bool(_), Expr::Bool(_)) => true,
        (Expr::Null, Expr::Null) => true,
        (Expr::Array(_), Expr::Array(_)) => true,
        (Expr::Geometry(_), Expr::Geometry(_)) => true,
        _ => false,
    }
}

/// The result of an arithmetic operator on two numbers: `+`, `-` and `*` exactly, where
/// the result fits; the others are not folded.
pub open spec fn arith_value(op: Seq<char>, l: ExprV, r: ExprV) -> Option<ExprV> {
    match (l, r) {
        (ExprV::Float(a), ExprV::Float(b)) => {
            if !a.wf() || !b.wf() {
                None
            } else {
                let res = if op == "+"@ {
                    checked_number(sum_parts(a, b, false).0, sum_parts(a, b, false).1)
                } else if op == "-"@ {
                    checked_number(sum_parts(a, b, true).0, sum_parts(a, b, true).1)
                } else if op == "*"@ {
                    checked_number(a.mantissa * b.mantissa, (a.scale + b.scale) as nat)
                } else {
                    None
                };
                match res {
                    Some(n) => Some(ExprV::Float(n)),
                    None => None,
                }
            }
        },
        _ => None,
    }
}

/// A comparison operator, from whether the left side is less than, equal to or greater
/// than the right.
pub open spec fn cmp_result(op: Seq<char>, lt: bool, eq: bool, gt: bool) -> Option<bool> {
    if op == "="@ {
        Some(eq)
    } else if op == "<>"@ {
        Some(!eq)
    } else if op == "<"@ {
        Some(lt)
    } else if op == "<="@ {
        Some(lt || eq)
    } else if op == ">"@ {
        Some(gt)
    } else if op == ">="@ {
        Some(gt || eq)
    } else {
        None
    }
}

/// An equality or comparison operator on two numbers, two booleans (`false < true`) or two
/// strings (by code point).
pub open spec fn compare_value(op: Seq<char>, l: ExprV, r: ExprV) -> Option<bool> {
    match (l, r) {
        (ExprV::Float(a), ExprV::Float(b)) => if a.wf() && b.wf() {
            cmp_result(op, a.lt_spec(&b), a.eq_spec(&b), b.lt_spec(&a))
        } else {
            None
        },
        (ExprV::Bool(a), ExprV::Bool(b)) => cmp_result(op, !a && b, a == b, a && !b),
        (ExprV::Literal(a), ExprV::Literal(b)) => cmp_result(op, seq_lt(a, b), a == b, seq_lt(b, a)),
        _ => None,
    }
}

/// Whether each piece of `a` is among the pieces of `b`.
pub open spec fn all_in(a: Seq<Seq<char>>, b: Seq<Seq<char>>) -> bool {
    forall|i: int| 0 <= i < a.len() ==> b.contains(#[trigger] a[i])
}

/// Whether some piece of `a` is among the pieces of `b`.
pub open spec fn any_in(a: Seq<Seq<char>>, b: Seq<Seq<char>>) -> bool {
    exists|i: int| 0 <= i < a.len() && b.contains(#[trigger] a[i])
}

/// An array operator on two arrays, as sets of their elements' texts.
pub open spec fn array_value(op: Seq<char>, l: ExprV, r: ExprV) -> Option<bool> {
    match (l, r) {
        (ExprV::Array(a), ExprV::Array(b)) => match (texts_of(a), texts_of(b)) {
            (Some(ta), Some(tb)) => if op == "a_equals"@ {
                Some(all_in(ta, tb) && all_in(tb, ta))
            } else if op == "a_contains"@ {
                Some(all_in(tb, ta))
            } else if op == "a_containedby"@ {
                Some(all_in(ta, tb))
            } else if op == "a_overlaps"@ {
                Some(any_in(ta, tb))
            } else {
                None
            },
            _ => None,
        },
        _ => None,
    }
}

/// Whether the text of `l` is the text of an element of the array `r`.
pub open spec fn in_value(l: ExprV, r: ExprV) -> Option<bool> {
    match r {
        ExprV::Array(b) => match (text_of(l), texts_of(b)) {
            (Some(t), Some(tb)) => Some(tb.contains(t)),
            _ => None,
        },
        _ => None,
    }
}

/// Whether the like crate matches `s` against the SQL LIKE pattern `p` (`%` any run, `_` any
/// one character, `\` escaping); `None` for a pattern it refuses.
pub uninterp spec fn like_match(s: Seq<char>, p: Seq<char>) -> Option<bool>;

/// Relies on like's `Like::<true>::like` on `str`: SQL LIKE with `\` as escape character, an
/// error for an invalid pattern.
#[verifier::external_body]
fn like_exec(s: &str, p: &str) -> (r: Option<bool>)
    ensures
        r == like_match(s@, p@),
{
    Like::<true>::like(s, p).ok()
}

/// What unaccent makes of `s`: its NFD decomposition without combining marks, recomposed (NFC).
pub uninterp spec fn unaccented(s: Seq<char>) -> Seq<char>;

/// Relies on unaccent's `unaccent`: `s` decomposed (NFD), combining marks removed, recomposed (NFC).
#[verifier::external_body]
pub fn unaccent_exec(s: &str) -> (r: String)
    ensures
        r@ == unaccented(s@),
{
    unaccent::unaccent(s)
}

/// Relies on std's `char::to_ascii_lowercase`: `A`-`Z` become `a`-`z`, every other character
/// stays.
#[verifier::external_body]
pub(crate) fn to_ascii_lower(c: char) -> (r: char)
    ensures
        r == ascii_lower(c),
{
    c.to_ascii_lowercase()
}

/// `s` with ASCII letters lower-cased.
pub open spec fn lower_ascii(s: Seq<char>) -> Seq<char> {
    s.map_values(|c: char| ascii_lower(c))
}

/// Lower-cases the ASCII letters of `s`.
pub fn lower_ascii_exec(s: &str) -> (r: String)
    ensures
        r@ == lower_ascii(s@),
{
    let cs = chars_of(s);
    let mut out: Vec<char> = Vec::new();
    let mut i: usize = 0;
    while i < cs.len()
        invariant
            i <= cs.len(),
            out@ == lower_ascii(cs@.subrange(0, i as int)),
        decreases cs.len() - i,
    {
        let c = cs[i];
        out.push(to_ascii_lower(c));
        i = i + 1;
        assert(out@ =~= lower_ascii(cs@.subrange(0, i as int)));
    }
    assert(cs@.subrange(0, cs.len() as int) =~= cs@);
    string_of(&out)
}

/// An arithmetic operator on two numbers.
pub fn arith_exec(op: &str, l: &Expr, r: &Expr) -> (res: Option<Expr>)
    ensures
        res matches Some(x) ==> arith_value(op@, l@, r@) == Some(x@),
        res is None ==> arith_value(op@, l@, r@) is None,
{
    match (l, r) {
        (Expr::Float(a), Expr::Float(b)) => {
            if !a.is_wf() || !b.is_wf() {
                return None;
            }
            let n = if str_is(op, "+") {
                a.checked_add(b)
            } else if str_is(op, "-") {
                a.checked_sub(b)
            } else if str_is(op, "*") {
                a.checked_mul(b)
            } else {
                None
            };
            match n {
                Some(n) => Some(Expr::Float(n)),
                None => None,
            }
        },
        _ => None,
    }
}

fn cmp_result_exec(op: &str, lt: bool, eq: bool, gt: bool) -> (r: Option<bool>)
    ensures
        r == cmp_result(op@, lt, eq, gt),
{
    if str_is(op, "=") {
        Some(eq)
    } else if str_is(op, "<>") {
        Some(!eq)
    } else if str_is(op, "<") {
        Some(lt)
    } else if str_is(op, "<=") {
        Some(lt || eq)
    } else if str_is(op, ">") {
        Some(gt)
    } else if str_is(op, ">=") {
        Some(gt || eq)
    } else {
        None
    }
}

/// An equality or comparison operator on two numbers, booleans or strings.
pub fn compare_exec(op: &str, l: &Expr, r: &Expr) -> (res: Option<bool>)
    ensures
        res == compare_value(op@, l@, r@),
{
    match (l, r) {
        (Expr::Float(a), Expr::Float(b)) => {
            if !a.is_wf() || !b.is_wf() {
                return None;
            }
            let c = a.compare(b);
            cmp_result_exec(op, c == -1, c == 0, c == 1)
        },
        (Expr::Bool(a), Expr::Bool(b)) => cmp_result_exec(op, !*a && *b, *a == *b, *a && !*b),
        (Expr::Literal(a), Expr::Literal(b)) => {
            let x = chars_of(a.as_str());
            let y = chars_of(b.as_str());
            let lt = chars_lt(&x, &y);
            let eq = chars_eq(&x, &y);
            let gt = chars_lt(&y, &x);
            cmp_result_exec(op, lt, eq, gt)
        },
        _ => None,
    }
}

/// The views of a vector of texts.
pub open spec fn text_views(ts: Seq<Vec<char>>) -> Seq<Seq<char>> {
    ts.map_values(|t: Vec<char>| t@)
}

/// Whether `t` is among the texts `ts`.
pub fn contains_text(ts: &Vec<Vec<char>>, t: &Vec<char>) -> (r: bool)
    ensures
        r == text_views(ts@).contains(t@),
{
    let mut i: usize = 0;
    while i < ts.len()
        invariant
            i <= ts.len(),
            forall|j: int| 0 <= j < i ==> #[trigger] text_views(ts@)[j] != t@,
        decreases ts.len() - i,
    {
        if chars_eq(&ts[i], t) {
            assert(text_views(ts@)[i as int] == t@);
            return true;
        }
        i = i + 1;
    }
    false
}

/// Whether each text of `a` is among the texts of `b`.
pub fn all_in_exec(a: &Vec<Vec<char>>, b: &Vec<Vec<char>>) -> (r: bool)
    ensures
        r == all_in(text_views(a@), text_views(b@)),
{
    let mut i: usize = 0;
    while i < a.len()
        invariant
            i <= a.len(),
            forall|j: int| 0 <= j < i ==> text_views(b@).contains(#[trigger] text_views(a@)[j]),
        decreases a.len() - i,
    {
        if !contains_text(b, &a[i]) {
            assert(!text_views(b@).contains(text_views(a@)[i as int]));
            return false;
        }
        i = i + 1;
    }
    true
}

/// Whether some text of `a` is among the texts of `b`.
pub fn any_in_exec(a: &Vec<Vec<char>>, b: &Vec<Vec<char>>) -> (r: bool)
    ensures
        r == any_in(text_views(a@), text_views(b@)),
{
    let mut i: usize = 0;
    while i < a.len()
        invariant
            i <= a.len(),
            forall|j: int| 0 <= j < i ==> !text_views(b@).contains(#[trigger] text_views(a@)[j]),
        decreases a.len() - i,
    {
        if contains_text(b, &a[i]) {
            assert(text_views(b@).contains(text_views(a@)[i as int]));
            return true;
        }
        i = i + 1;
    }
    false
}

/// An array operator on two arrays, as sets of their elements' texts.
pub fn array_exec(op: &str, l: &Expr, r: &Expr) -> (res: Option<bool>)
    ensures
        res == array_value(op@, l@, r@),
{
    match (l, r) {
        (Expr::Array(a), Expr::Array(b)) => {
            let ta = match Expr::texts(a) {
                Ok(t) => t,
                Err(_) => return None,
            };
            let tb = match Expr::texts(b) {
                Ok(t) => t,
                Err(_) => return None,
            };
            if str_is(op, "a_equals") {
                Some(all_in_exec(&ta, &tb) && all_in_exec(&tb, &ta))
            } else if str_is(op, "a_contains") {
                Some(all_in_exec(&tb, &ta))
            } else if str_is(op, "a_containedby") {
                Some(all_in_exec(&ta, &tb))
            } else if str_is(op, "a_overlaps") {
                Some(any_in_exec(&ta, &tb))
            } else {
                None
            }
        },
        _ => None,
    }
}

/// Whether the text of `l` is the text of an element of the array `r`.
pub fn in_exec(l: &Expr, r: &Expr) -> (res: Option<bool>)
    ensures
        res == in_value(l@, r@),
{
    match r {
        Expr::Array(b) => {
            let t = match l.text_chars() {
                Ok(t) => t,
                Err(_) => return None,
            };
            let tb = match Expr::texts(b) {
                Ok(t) => t,
                Err(_) => return None,
            };
            Some(contains_text(&tb, &t))
        },
        _ => None,
    }
}

/// The folded value of a two-argument operator, where it folds: spatial, temporal,
/// arithmetic, comparison, array and LIKE operators on two expressions of one variant, and
/// `in` on an element and an array.
pub open spec fn binary_value(op: Seq<char>, l: ExprV, r: ExprV) -> Option<ExprV> {
    if same_kind(l, r) {
        if is_spatial_op(op) {
            match spatial_value(op, l, r) {
                Some(b) => Some(ExprV::Bool(b)),
                None => None,
            }
        } else if is_temporal_op(op) {
            match temporal_value(op, l, r) {
                Some(b) => Some(ExprV::Bool(b)),
                None => None,
            }
        } else if is_arith_op(op) {
            arith_value(op, l, r)
        } else if is_cmp_op(op) {
            match compare_value(op, l, r) {
                Some(b) => Some(ExprV::Bool(b)),
                None => None,
            }
        } else if is_array_op(op) {
            match array_value(op, l, r) {
                Some(b) => Some(ExprV::Bool(b)),
                None => None,
            }
        } else if op == "like"@ {
            match (l, r) {
                (ExprV::Literal(a), ExprV::Literal(b)) => match like_match(a, b) {
                    Some(m) => Some(ExprV::Bool(m)),
                    None => None,
                },
                _ => None,
            }
        } else {
            None
        }
    } else if op == "in"@ {
        match in_value(l, r) {
            Some(b) => Some(ExprV::Bool(b)),
            None => None,
        }
    } else {
        None
    }
}

fn spatial_name(op: &str) -> (r: bool)
    ensures
        r == is_spatial_op(op@),
{
    str_is(op, "s_equals") || str_is(op, "s_intersects") || str_is(op, "s_disjoint") || str_is(
        op,
        "s_touches",
    ) || str_is(op, "s_within") || str_is(op, "s_overlaps") || str_is(op, "s_crosses")
        || str_is(op, "s_contains")
}

fn temporal_name(op: &str) -> (r: bool)
    ensures
        r == is_temporal_op(op@),
{
    str_is(op, "t_before") || str_is(op, "t_after") || str_is(op, "t_meets") || str_is(
        op,
        "t_metby",
    ) || str_is(op, "t_overlaps") || str_is(op, "t_overlappedby") || str_is(op, "t_starts")
        || str_is(op, "t_startedby") || str_is(op, "t_during") || str_is(op, "t_contains")
        || str_is(op, "t_finishes") || str_is(op, "t_finishedby") || str_is(op, "t_equals")
        || str_is(op, "t_disjoint") || str_is(op, "t_intersects") || str_is(op, "anyinteracts")
}

fn arith_name(op: &str) -> (r: bool)
    ensures
        r == is_arith_op(op@),
{
    str_is(op, "+") || str_is(op, "-") || str_is(op, "*") || str_is(op, "/") || str_is(op, "%")
        || str_is(op, "^")
}

fn cmp_name(op: &str) -> (r: bool)
    ensures
        r == is_cmp_op(op@),
{
    str_is(op, "=") || str_is(op, "<>") || str_is(op, "<") || str_is(op, "<=") || str_is(op, ">")
        || str_is(op, ">=")
}

fn array_name(op: &str) -> (r: bool)
    ensures
        r == is_array_op(op@),
{
    str_is(op, "a_equals") || str_is(op, "a_contains") || str_is(op, "a_containedby") || str_is(
        op,
        "a_overlaps",
    )
}

fn bool_of(r: Option<bool>) -> (e: Option<Expr>)
    ensures
        r matches Some(b) ==> e matches Some(x) && x@ == ExprV::Bool(b),
        r is None ==> e is None,
{
    match r {
        Some(b) => Some(Expr::Bool(b)),
        None => None,
    }
}

/// The folded value of a two-argument operator, where it folds.
pub fn binary_exec(op: &str, l: &Expr, r: &Expr) -> (res: Option<Expr>)
    ensures
        res matches Some(x) ==> binary_value(op@, l@, r@) == Some(x@),
        res is None ==> binary_value(op@, l@, r@) is None,
{
    if same_kind_exec(l, r) {
        if spatial_name(op) {
            match spatial_op(l, r, op) {
                Ok(x) => Some(x),
                Err(_) => None,
            }
        } else if temporal_name(op) {
            match temporal_op(l, r, op) {
                Ok(x) => Some(x),
                Err(_) => None,
            }
        } else if arith_name(op) {
            arith_exec(op, l, r)
        } else if cmp_name(op) {
            bool_of(compare_exec(op, l, r))
        } else if array_name(op) {
            bool_of(array_exec(op, l, r))
        } else if str_is(op, "like") {
            match (l, r) {
                (Expr::Literal(a), Expr::Literal(b)) => bool_of(like_exec(a.as_str(), b.as_str())),
                _ => None,
            }
        } else {
            None
        }
    } else if str_is(op, "in") {
        bool_of(in_exec(l, r))
    } else {
        None
    }
}

} // verus!
