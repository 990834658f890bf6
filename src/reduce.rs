use vstd::prelude::*;
use crate::decode::{expr_of_json, from_json, lookup, lookup_property};
use crate::error::Error;
use crate::expr::{
    copy_exprs,
    expr_view, expr_views, lemma_expr_views, lemma_expr_views_append, text_of, Expr,
    ExprV,
};
use crate::json::{Json, JsonV};
use crate::ops::{
    binary_exec, binary_value, compare_exec, compare_value, lower_ascii, lower_ascii_exec,
    unaccent_exec, unaccented,
};
use crate::text::{chars_eq, chars_lt, lemma_seq_lt_order, seq_lt, str_is};

verus! {

broadcast use vstd::std_specs::vec::group_vec_axioms, vstd::seq::group_seq_axioms;

/// A child of a boolean operation, with its canonical text as sort key.
pub type Keyed = (Seq<char>, ExprV);

/// The children of an `and`/`or`, with the children of any child of the same operator
/// spliced in its place.
pub open spec fn flatten(op: Seq<char>, args: Seq<ExprV>) -> Seq<ExprV>
    decreases args.len(),
{
    if args.len() == 0 {
        seq![]
    } else {
        let x = args.last();
        flatten(op, args.drop_last()) + (if x is Operation && x->Operation_op == op {
            x->Operation_args
        } else {
            seq![x]
        })
    }
}

/// Each expression with its canonical text, where each has one.
pub open spec fn keyed(es: Seq<ExprV>) -> Option<Seq<Keyed>>
    decreases es.len(),
{
    if es.len() == 0 {
        Some(seq![])
    } else {
        match (keyed(es.drop_last()), text_of(es.last())) {
            (Some(k), Some(t)) => Some(k.push((t, es.last()))),
            _ => None,
        }
    }
}

/// Inserts `x` into `s`, which is sorted by key, before the first larger key; where its key
/// is already there, `s` stays as it is.
pub open spec fn insert_sorted(s: Seq<Keyed>, x: Keyed) -> Seq<Keyed>
    decreases s.len(),
{
    if s.len() == 0 {
        seq![x]
    } else if s[0].0 == x.0 {
        s
    } else if seq_lt(x.0, s[0].0) {
        seq![x] + s
    } else {
        seq![s[0]] + insert_sorted(s.drop_first(), x)
    }
}

/// `s` sorted by key, keeping the first of several with one key.
pub open spec fn sort_dedup(s: Seq<Keyed>) -> Seq<Keyed>
    decreases s.len(),
{
    if s.len() == 0 {
        seq![]
    } else {
        insert_sorted(sort_dedup(s.drop_last()), s.last())
    }
}

/// `s` without the children that are the boolean literal `b`.
pub open spec fn drop_bool(s: Seq<Keyed>, b: bool) -> Seq<Keyed>
    decreases s.len(),
{
    if s.len() == 0 {
        seq![]
    } else {
        drop_bool(s.drop_last(), b) + (if s.last().1 == ExprV::Bool(b) {
            seq![]
        } else {
            seq![s.last()]
        })
    }
}

/// Whether a child is the boolean literal `b`.
pub open spec fn has_bool(s: Seq<Keyed>, b: bool) -> bool {
    exists|i: int| 0 <= i < s.len() && #[trigger] s[i].1 == ExprV::Bool(b)
}

/// The expressions of keyed children.
pub open spec fn unkeyed(s: Seq<Keyed>) -> Seq<ExprV> {
    s.map_values(|p: Keyed| p.1)
}

/// Folds an `and` (or an `or`) over reduced children: nested ones of the same operator
/// spliced in, sorted and deduplicated by canonical text; `false` (`true`) if a child is;
/// children `true` (`false`) dropped; no child left gives `true` (`false`), one child is
/// the result. `None` where a child has no canonical text.
pub open spec fn bool_fold(op: Seq<char>, args: Seq<ExprV>) -> Option<ExprV> {
    let is_and = op == "and"@;
    if flatten(op, args).contains(ExprV::Bool(!is_and)) {
        Some(ExprV::Bool(!is_and))
    } else {
    match keyed(flatten(op, args)) {
        None => None,
        Some(ks) => {
            let sorted = sort_dedup(ks);
            if has_bool(sorted, !is_and) {
                Some(ExprV::Bool(!is_and))
            } else {
                let rest = drop_bool(sorted, is_and);
                if rest.len() == 0 {
                    Some(ExprV::Bool(is_and))
                } else if rest.len() == 1 {
                    Some(rest[0].1)
                } else {
                    Some(ExprV::Operation { op, args: unkeyed(rest) })
                }
            }
        },
    }
    }
}

/// An operation over reduced arguments, folded where its arguments allow.
pub open spec fn fold_op(op: Seq<char>, args: Seq<ExprV>) -> Option<ExprV> {
    let same = ExprV::Operation { op, args };
    if op == "and"@ || op == "or"@ {
        bool_fold(op, args)
    } else if op == "not"@ {
        if args.len() == 1 && args[0] is Bool {
            Some(ExprV::Bool(!args[0]->Bool_0))
        } else {
            Some(same)
        }
    } else if op == "casei"@ {
        if args.len() == 1 && args[0] is Literal {
            Some(ExprV::Literal(lower_ascii(args[0]->Literal_0)))
        } else {
            Some(same)
        }
    } else if op == "accenti"@ {
        if args.len() == 1 && args[0] is Literal {
            Some(ExprV::Literal(unaccented(args[0]->Literal_0)))
        } else {
            Some(same)
        }
    } else if op == "between"@ {
        if args.len() == 3 {
            match (compare_value(">="@, args[0], args[1]), compare_value("<="@, args[0], args[2])) {
                (Some(a), Some(b)) => Some(ExprV::Bool(a && b)),
                _ => Some(same),
            }
        } else {
            Some(same)
        }
    } else if args.len() != 2 {
        Some(same)
    } else {
        match binary_value(op, args[0], args[1]) {
            Some(v) => Some(v),
            None => Some(same),
        }
    }
}

/// The reduced forms of a sequence of expressions.
pub open spec fn reduce_all(es: Seq<ExprV>, rec: Option<JsonV>) -> Option<Seq<ExprV>>
    decreases es,
{
    if es.len() == 0 {
        Some(seq![])
    } else {
        match (reduce_all(es.subrange(0, es.len() - 1), rec), reduce_spec(es[es.len() - 1], rec)) {
            (Some(front), Some(e)) => Some(front.push(e)),
            _ => None,
        }
    }
}

/// The reduced form of an expression against an optional record: properties that the record
/// gives are replaced by its value read as cql2-json, the children of operations and of
/// arrays, intervals, boxes, dates and timestamps are reduced, and operations are folded where
/// they can be; an operation that cannot be folded stays as it is. `None` where a record value
/// is no expression.
pub open spec fn reduce_spec(e: ExprV, rec: Option<JsonV>) -> Option<ExprV>
    decreases e,
{
    match e {
        ExprV::Property { property } => match rec {
            Some(j) => match lookup_property(j, property) {
                Some(v) => expr_of_json(v),
                None => Some(e),
            },
            None => Some(e),
        },
        ExprV::Operation { op, args } => match reduce_all(args, rec) {
            Some(ra) => match fold_op(op, ra) {
                Some(v) => Some(v),
                None => Some(ExprV::Operation { op, args: ra }),
            },
            None => None,
        },
        ExprV::Array(v) => match reduce_all(v, rec) {
            Some(ra) => Some(ExprV::Array(ra)),
            None => None,
        },
        ExprV::Interval { interval } => match reduce_all(interval, rec) {
            Some(ra) => Some(ExprV::Interval { interval: ra }),
            None => None,
        },
        ExprV::BBox { bbox } => match reduce_all(bbox, rec) {
            Some(ra) => Some(ExprV::BBox { bbox: ra }),
            None => None,
        },
        ExprV::Date { date } => match reduce_spec(*date, rec) {
            Some(d) => Some(ExprV::Date { date: Box::new(d) }),
            None => None,
        },
        ExprV::Timestamp { timestamp } => match reduce_spec(*timestamp, rec) {
            Some(d) => Some(ExprV::Timestamp { timestamp: Box::new(d) }),
            None => None,
        },
        _ => Some(e),
    }
}

/// The view of an optional record.
pub open spec fn record_view(rec: Option<&Json>) -> Option<JsonV> {
    match rec {
        Some(j) => Some(j@),
        None => None,
    }
}

/// The view of keyed children.
pub open spec fn keyed_views(v: Seq<(Vec<char>, Expr)>) -> Seq<Keyed> {
    v.map_values(|p: (Vec<char>, Expr)| (p.0@, p.1@))
}

/// Inserting at the first position whose key is not smaller is `insert_sorted`.
pub proof fn lemma_insert_at(s: Seq<Keyed>, x: Keyed, i: int)
    requires
        0 <= i <= s.len(),
        forall|j: int| 0 <= j < i ==> seq_lt(#[trigger] s[j].0, x.0),
        i < s.len() ==> !seq_lt(s[i].0, x.0),
    ensures
        insert_sorted(s, x) == if i < s.len() && s[i].0 == x.0 {
            s
        } else {
            s.insert(i, x)
        },
    decreases i,
{
    if s.len() == 0 {
        assert(s.insert(0, x) =~= seq![x]);
    } else if i == 0 {
        lemma_seq_lt_order(s[0].0, x.0);
        if s[0].0 != x.0 {
            assert(s.insert(0, x) =~= seq![x] + s);
        }
    } else {
        lemma_seq_lt_order(s[0].0, x.0);
        let rest = s.drop_first();
        assert forall|j: int| 0 <= j < i - 1 implies seq_lt(#[trigger] rest[j].0, x.0) by {
            assert(rest[j] == s[j + 1]);
        }
        if i < s.len() {
            assert(rest[i - 1] == s[i]);
        }
        lemma_insert_at(rest, x, i - 1);
        if i < s.len() && s[i].0 == x.0 {
            assert(seq![s[0]] + rest =~= s);
        } else {
            assert(seq![s[0]] + rest.insert(i - 1, x) =~= s.insert(i, x));
        }
    }
}

/// Inserts a keyed child into children sorted by key, unless its key is there.
pub fn insert_sorted_exec(acc: &mut Vec<(Vec<char>, Expr)>, x: (Vec<char>, Expr))
    ensures
        keyed_views(final(acc)@) == insert_sorted(keyed_views(old(acc)@), (x.0@, x.1@)),
{
    let ghost kv = keyed_views(acc@);
    let mut i: usize = 0;
    while i < acc.len() && chars_lt(&acc[i].0, &x.0)
        invariant
            i <= acc.len(),
            kv == keyed_views(acc@),
            forall|j: int| 0 <= j < i ==> seq_lt(#[trigger] kv[j].0, x.0@),
        decreases acc.len() - i,
    {
        assert(kv[i as int].0 == acc@[i as int].0@);
        i = i + 1;
    }
    proof {
        if i < acc.len() {
            assert(kv[i as int].0 == acc@[i as int].0@);
        }
        lemma_insert_at(kv, (x.0@, x.1@), i as int);
    }
    if i < acc.len() && chars_eq(&acc[i].0, &x.0) {
        return;
    }
    acc.insert(i, x);
    assert(keyed_views(acc@) =~= kv.insert(i as int, (x.0@, x.1@)));
}

/// Splices the children of nested operations `op` into the list.
pub fn flatten_exec(op: &str, args: Vec<Expr>) -> (r: Vec<Expr>)
    ensures
        expr_views(r@) == flatten(op@, expr_views(args@)),
{
    let ghost orig = args@;
    let ghost n = args.len();
    proof {
        lemma_expr_views(orig);
    }
    let mut rest = args;
    let mut out: Vec<Expr> = Vec::new();
    let mut k: usize = 0;
    while rest.len() > 0
        invariant
            n == orig.len(),
            k + rest.len() == n,
            rest@ == orig.subrange(k as int, n as int),
            expr_views(out@) == flatten(op@, expr_views(orig.subrange(0, k as int))),
        decreases rest.len(),
    {
        let x = rest.remove(0);
        proof {
            assert(x == orig[k as int]);
            let sub = orig.subrange(0, k + 1);
            lemma_expr_views(sub);
            lemma_expr_views(orig.subrange(0, k as int));
            assert(expr_views(sub).drop_last() =~= expr_views(orig.subrange(0, k as int)));
            assert(expr_views(sub).last() == x@);
        }
        let ghost before = out@;
        match x {
            Expr::Operation { op: o, args: a } => {
                if str_is(o.as_str(), op) {
                    let mut a = a;
                    let ghost av = a@;
                    out.append(&mut a);
                    proof {
                        lemma_expr_views_append(before, av);
                    }
                } else {
                    let y = Expr::Operation { op: o, args: a };
                    out.push(y);
                    proof {
                        lemma_expr_views_append(before, seq![y]);
                        assert(before.push(y) =~= before + seq![y]);
                        lemma_expr_views(seq![y]);
                        assert(expr_views(seq![y]) =~= seq![y@]);
                    }
                }
            },
            other => {
                out.push(other);
                proof {
                    lemma_expr_views_append(before, seq![other]);
                    assert(before.push(other) =~= before + seq![other]);
                    lemma_expr_views(seq![other]);
                    assert(expr_views(seq![other]) =~= seq![other@]);
                }
            },
        }
        k = k + 1;
        assert(rest@ =~= orig.subrange(k as int, n as int));
    }
    assert(orig.subrange(0, n as int) =~= orig);
    out
}

/// Where some prefix has no keys, neither has the whole.
pub proof fn lemma_keyed_prefix_none(es: Seq<ExprV>, j: int)
    requires
        0 <= j <= es.len(),
        keyed(es.subrange(0, j)) is None,
    ensures
        keyed(es) is None,
    decreases es.len() - j,
{
    if j < es.len() {
        let next = es.subrange(0, j + 1);
        assert(next.drop_last() =~= es.subrange(0, j));
        lemma_keyed_prefix_none(es, j + 1);
    } else {
        assert(es.subrange(0, j) =~= es);
    }
}

/// Pairs each expression with its canonical text.
pub fn keyed_exec(es: Vec<Expr>) -> (r: Result<Vec<(Vec<char>, Expr)>, Error>)
    ensures
        r matches Ok(ks) ==> keyed(expr_views(es@)) == Some(keyed_views(ks@)),
        r is Err ==> keyed(expr_views(es@)) is None,
{
    let ghost orig = es@;
    let ghost n = es.len();
    proof {
        lemma_expr_views(orig);
    }
    let mut rest = es;
    let mut out: Vec<(Vec<char>, Expr)> = Vec::new();
    let mut k: usize = 0;
    while rest.len() > 0
        invariant
            orig == es@,
            n == orig.len(),
            k + rest.len() == n,
            rest@ == orig.subrange(k as int, n as int),
            keyed(expr_views(orig.subrange(0, k as int))) == Some(keyed_views(out@)),
        decreases rest.len(),
    {
        let x = rest.remove(0);
        proof {
            assert(x == orig[k as int]);
            let sub = orig.subrange(0, k + 1);
            lemma_expr_views(sub);
            lemma_expr_views(orig.subrange(0, k as int));
            assert(expr_views(sub).drop_last() =~= expr_views(orig.subrange(0, k as int)));
            assert(expr_views(sub).last() == x@);
        }
        let t = match x.text_chars() {
            Ok(t) => t,
            Err(e) => {
                proof {
                    let sub = orig.subrange(0, k + 1);
                    lemma_expr_views(sub);
                    lemma_expr_views(orig.subrange(0, k as int));
                    assert(expr_views(sub).drop_last() =~= expr_views(orig.subrange(0, k as int)));
                    assert(expr_views(sub).last() == x@);
                    assert(text_of(x@) is None);
                    assert(keyed(expr_views(sub)) is None);
                    lemma_expr_views(orig);
                    assert(expr_views(orig.subrange(0, k + 1)) =~= expr_views(orig).subrange(
                        0,
                        k + 1,
                    ));
                    lemma_keyed_prefix_none(expr_views(orig), k + 1);
                    assert(keyed(expr_views(orig)) is None);
                }
                return Err(e);
            },
        };
        let ghost before = out@;
        out.push((t, x));
        proof {
            assert(keyed_views(out@) =~= keyed_views(before).push((t@, x@)));
        }
        k = k + 1;
        assert(rest@ =~= orig.subrange(k as int, n as int));
    }
    assert(orig.subrange(0, n as int) =~= orig);
    Ok(out)
}

/// Sorts keyed children by key, keeping the first of several with one key.
pub fn sort_dedup_exec(ks: Vec<(Vec<char>, Expr)>) -> (r: Vec<(Vec<char>, Expr)>)
    ensures
        keyed_views(r@) == sort_dedup(keyed_views(ks@)),
{
    let ghost orig = ks@;
    let ghost n = ks.len();
    let mut rest = ks;
    let mut out: Vec<(Vec<char>, Expr)> = Vec::new();
    let mut k: usize = 0;
    while rest.len() > 0
        invariant
            n == orig.len(),
            k + rest.len() == n,
            rest@ == orig.subrange(k as int, n as int),
            keyed_views(out@) == sort_dedup(keyed_views(orig.subrange(0, k as int))),
        decreases rest.len(),
    {
        let x = rest.remove(0);
        proof {
            assert(x == orig[k as int]);
            let sub = keyed_views(orig.subrange(0, k + 1));
            assert(sub.drop_last() =~= keyed_views(orig.subrange(0, k as int)));
            assert(sub.last() == (x.0@, x.1@));
        }
        insert_sorted_exec(&mut out, x);
        k = k + 1;
        assert(rest@ =~= orig.subrange(k as int, n as int));
    }
    assert(orig.subrange(0, n as int) =~= orig);
    out
}

/// Whether a child is the boolean literal `b`.
pub fn has_bool_exec(s: &Vec<(Vec<char>, Expr)>, b: bool) -> (r: bool)
    ensures
        r == has_bool(keyed_views(s@), b),
{
    let ghost kv = keyed_views(s@);
    let mut i: usize = 0;
    while i < s.len()
        invariant
            i <= s.len(),
            kv == keyed_views(s@),
            forall|j: int| 0 <= j < i ==> #[trigger] kv[j].1 != ExprV::Bool(b),
        decreases s.len() - i,
    {
        assert(kv[i as int].1 == s@[i as int].1@);
        if let Expr::Bool(v) = &s[i].1 {
            if *v == b {
                return true;
            }
        }
        i = i + 1;
    }
    false
}

/// Drops the children that are the boolean literal `b`.
pub fn drop_bool_exec(s: Vec<(Vec<char>, Expr)>, b: bool) -> (r: Vec<(Vec<char>, Expr)>)
    ensures
        keyed_views(r@) == drop_bool(keyed_views(s@), b),
{
    let ghost orig = s@;
    let ghost n = s.len();
    let mut rest = s;
    let mut out: Vec<(Vec<char>, Expr)> = Vec::new();
    let mut k: usize = 0;
    while rest.len() > 0
        invariant
            n == orig.len(),
            k + rest.len() == n,
            rest@ == orig.subrange(k as int, n as int),
            keyed_views(out@) == drop_bool(keyed_views(orig.subrange(0, k as int)), b),
        decreases rest.len(),
    {
        let x = rest.remove(0);
        proof {
            assert(x == orig[k as int]);
            let sub = keyed_views(orig.subrange(0, k + 1));
            assert(sub.drop_last() =~= keyed_views(orig.subrange(0, k as int)));
            assert(sub.last() == (x.0@, x.1@));
        }
        let ghost before = out@;
        let is_b = match &x.1 {
            Expr::Bool(v) => *v == b,
            _ => false,
        };
        if !is_b {
            out.push(x);
            assert(keyed_views(out@) =~= keyed_views(before) + seq![(x.0@, x.1@)]);
        } else {
            assert(keyed_views(out@) =~= keyed_views(before) + Seq::<Keyed>::empty());
        }
        k = k + 1;
        assert(rest@ =~= orig.subrange(k as int, n as int));
    }
    assert(orig.subrange(0, n as int) =~= orig);
    out
}

/// The expressions of keyed children.
pub fn unkeyed_exec(s: Vec<(Vec<char>, Expr)>) -> (r: Vec<Expr>)
    ensures
        expr_views(r@) == unkeyed(keyed_views(s@)),
{
    let ghost orig = s@;
    let ghost n = s.len();
    let mut rest = s;
    let mut out: Vec<Expr> = Vec::new();
    let mut k: usize = 0;
    while rest.len() > 0
        invariant
            n == orig.len(),
            k + rest.len() == n,
            out.len() == k,
            rest@ == orig.subrange(k as int, n as int),
            expr_views(out@) == unkeyed(keyed_views(orig.subrange(0, k as int))),
        decreases rest.len(),
    {
        let x = rest.remove(0);
        let ghost before = out@;
        out.push(x.1);
        proof {
            assert(x == orig[k as int]);
            assert(out@.subrange(0, k as int) =~= before);
            assert(unkeyed(keyed_views(orig.subrange(0, k + 1))) =~= unkeyed(
                keyed_views(orig.subrange(0, k as int)),
            ).push(x.1@));
        }
        k = k + 1;
        assert(rest@ =~= orig.subrange(k as int, n as int));
    }
    assert(orig.subrange(0, n as int) =~= orig);
    out
}

/// Whether one of the expressions is the boolean literal `b`.
pub fn contains_bool(es: &Vec<Expr>, b: bool) -> (r: bool)
    ensures
        r == expr_views(es@).contains(ExprV::Bool(b)),
{
    proof {
        lemma_expr_views(es@);
    }
    let mut i: usize = 0;
    while i < es.len()
        invariant
            i <= es.len(),
            expr_views(es@).len() == es.len(),
            forall|j: int| 0 <= j < es.len() ==> #[trigger] expr_views(es@)[j] == es@[j]@,
            forall|j: int| 0 <= j < i ==> expr_views(es@)[j] != ExprV::Bool(b),
        decreases es.len() - i,
    {
        if let Expr::Bool(v) = &es[i] {
            if *v == b {
                assert(expr_views(es@)[i as int] == ExprV::Bool(b));
                return true;
            }
        }
        i = i + 1;
    }
    false
}

/// Folds an `and` or `or` over reduced children.
pub fn bool_fold_exec(op: &str, args: Vec<Expr>) -> (r: Result<Expr, Error>)
    requires
        op@ == "and"@ || op@ == "or"@,
    ensures
        r matches Ok(x) ==> bool_fold(op@, expr_views(args@)) == Some(x@),
        r is Err ==> bool_fold(op@, expr_views(args@)) is None,
{
    let is_and = str_is(op, "and");
    let flat = flatten_exec(op, args);
    if contains_bool(&flat, !is_and) {
        return Ok(Expr::Bool(!is_and));
    }
    let ks = keyed_exec(flat)?;
    let sorted = sort_dedup_exec(ks);
    if has_bool_exec(&sorted, !is_and) {
        return Ok(Expr::Bool(!is_and));
    }
    let mut rest = drop_bool_exec(sorted, is_and);
    if rest.len() == 0 {
        return Ok(Expr::Bool(is_and));
    }
    if rest.len() == 1 {
        let x = rest.remove(0);
        return Ok(x.1);
    }
    Ok(Expr::Operation { op: op.to_owned(), args: unkeyed_exec(rest) })
}

/// Folds an operation over reduced arguments where they allow.
pub fn fold_op_exec(op: String, args: Vec<Expr>) -> (r: Result<Expr, Error>)
    ensures
        r matches Ok(x) ==> fold_op(op@, expr_views(args@)) == Some(x@),
        r is Err ==> fold_op(op@, expr_views(args@)) is None,
{
    proof {
        lemma_expr_views(args@);
    }
    if str_is(op.as_str(), "and") || str_is(op.as_str(), "or") {
        return bool_fold_exec(op.as_str(), args);
    }
    if str_is(op.as_str(), "not") {
        if args.len() == 1 {
            if let Expr::Bool(v) = &args[0] {
                return Ok(Expr::Bool(!*v));
            }
        }
        return Ok(Expr::Operation { op, args });
    }
    if str_is(op.as_str(), "casei") {
        if args.len() == 1 {
            if let Expr::Literal(v) = &args[0] {
                return Ok(Expr::Literal(lower_ascii_exec(v.as_str())));
            }
        }
        return Ok(Expr::Operation { op, args });
    }
    if str_is(op.as_str(), "accenti") {
        if args.len() == 1 {
            if let Expr::Literal(v) = &args[0] {
                return Ok(Expr::Literal(unaccent_exec(v.as_str())));
            }
        }
        return Ok(Expr::Operation { op, args });
    }
    if str_is(op.as_str(), "between") {
        if args.len() == 3 {
            let a = compare_exec(">=", &args[0], &args[1]);
            let b = compare_exec("<=", &args[0], &args[2]);
            if let (Some(a), Some(b)) = (a, b) {
                return Ok(Expr::Bool(a && b));
            }
        }
        return Ok(Expr::Operation { op, args });
    }
    if args.len() != 2 {
        return Ok(Expr::Operation { op, args });
    }
    match binary_exec(op.as_str(), &args[0], &args[1]) {
        Some(v) => Ok(v),
        None => Ok(Expr::Operation { op, args }),
    }
}

/// Where some prefix does not reduce, neither does the whole.
pub proof fn lemma_reduce_prefix_none(es: Seq<ExprV>, rec: Option<JsonV>, j: int)
    requires
        0 <= j <= es.len(),
        reduce_all(es.subrange(0, j), rec) is None,
    ensures
        reduce_all(es, rec) is None,
    decreases es.len() - j,
{
    if j < es.len() {
        let next = es.subrange(0, j + 1);
        assert(next.subrange(0, j) =~= es.subrange(0, j));
        lemma_reduce_prefix_none(es, rec, j + 1);
    } else {
        assert(es.subrange(0, j) =~= es);
    }
}

/// The records that an expression matches, in their order.
pub open spec fn filtered(e: ExprV, recs: Seq<JsonV>) -> Seq<JsonV>
    decreases recs.len(),
{
    if recs.len() == 0 {
        seq![]
    } else {
        let front = filtered(e, recs.drop_last());
        if crate::laws::matches_spec(e, Some(recs.last())) == Some(true) {
            front.push(recs.last())
        } else {
            front
        }
    }
}

impl Expr {
    /// The records that this expression matches, in their order.
    pub fn filter(&self, records: &Vec<Json>) -> (r: Vec<Json>)
        ensures
            crate::json::json_views(r@) == filtered(self@, crate::json::json_views(records@)),
    {
        proof {
            crate::json::lemma_json_views(records@);
        }
        let mut out: Vec<Json> = Vec::new();
        let mut i: usize = 0;
        while i < records.len()
            invariant
                i <= records.len(),
                crate::json::json_views(records@).len() == records.len(),
                forall|j: int|
                    0 <= j < records.len() ==> #[trigger] crate::json::json_views(records@)[j]
                        == records@[j]@,
                crate::json::json_views(out@) == filtered(
                    self@,
                    crate::json::json_views(records@).subrange(0, i as int),
                ),
            decreases records.len() - i,
        {
            let ghost rv = crate::json::json_views(records@);
            proof {
                assert(rv.subrange(0, i + 1).drop_last() =~= rv.subrange(0, i as int));
                assert(rv.subrange(0, i + 1).last() == records@[i as int]@);
            }
            let m = self.matches(Some(&records[i]));
            if let Ok(true) = m {
                let c = records[i].copy();
                let ghost before = out@;
                out.push(c);
                proof {
                    assert(out@.subrange(0, before.len() as int) =~= before);
                    assert(crate::json::json_views(out@) == crate::json::json_views(before).push(
                        crate::json::json_view(c),
                    ));
                }
            } else {
                assert(crate::laws::matches_spec(self@, Some(records@[i as int]@)) != Some(true));
            }
            i = i + 1;
        }
        proof {
            let rv = crate::json::json_views(records@);
            assert(rv.subrange(0, records.len() as int) =~= rv);
        }
        out
    }

    /// The reduced forms of a sequence of expressions.
    fn reduce_each(es: &Vec<Expr>, rec: Option<&Json>) -> (r: Result<Vec<Expr>, Error>)
        ensures
            r matches Ok(v) ==> reduce_all(expr_views(es@), record_view(rec)) == Some(
                expr_views(v@),
            ),
            r is Err ==> reduce_all(expr_views(es@), record_view(rec)) is None,
            r matches Err(e) ==> e is InvalidJson,
        decreases es@, 0nat,
    {
        let ghost rv = record_view(rec);
        let mut out: Vec<Expr> = Vec::new();
        let mut i: usize = 0;
        while i < es.len()
            invariant
                i <= es.len(),
                out.len() == i,
                rv == record_view(rec),
                reduce_all(expr_views(es@.subrange(0, i as int)), rv) == Some(expr_views(out@)),
            decreases es.len() - i,
        {
            proof {
                assert(decreases_to!(es@ => es@[i as int]));
            }
            let r = es[i].reduce(rec);
            proof {
                let sub = es@.subrange(0, i + 1);
                assert(sub.subrange(0, i as int) =~= es@.subrange(0, i as int));
                assert(sub[i as int] == es@[i as int]);
                lemma_expr_views(sub);
                lemma_expr_views(es@);
                lemma_expr_views(es@.subrange(0, i as int));
                assert(expr_views(sub) =~= expr_views(es@).subrange(0, i + 1));
                assert(expr_views(sub).subrange(0, i as int) =~= expr_views(
                    es@.subrange(0, i as int),
                ));
            }
            let x = match r {
                Ok(x) => x,
                Err(e) => {
                    proof {
                        lemma_reduce_prefix_none(expr_views(es@), rv, i + 1);
                    }
                    return Err(e);
                },
            };
            let ghost before = out@;
            out.push(x);
            proof {
                assert(out@.subrange(0, i as int) =~= before);
                assert(out@[i as int] == x);
                assert(expr_views(out@) == expr_views(out@.subrange(0, i as int)).push(
                    expr_view(out@[i as int]),
                ));
            }
            i = i + 1;
        }
        proof {
            assert(es@.subrange(0, es.len() as int) =~= es@);
        }
        Ok(out)
    }

    /// Reduces this expression against an optional record: substitutes the properties that
    /// the record gives, reduces children and folds operations where their arguments allow.
    pub fn reduce(&self, rec: Option<&Json>) -> (r: Result<Expr, Error>)
        ensures
            r matches Ok(x) ==> reduce_spec(self@, record_view(rec)) == Some(x@),
            r is Err ==> reduce_spec(self@, record_view(rec)) is None,
            r matches Err(e) ==> e is InvalidJson,
        decreases *self, 1nat,
    {
        match self {
            Expr::Property { property } => {
                match rec {
                    Some(j) => match lookup(j, property.as_str()) {
                        Some(v) => from_json(v),
                        None => Ok(self.copy()),
                    },
                    None => Ok(self.copy()),
                }
            },
            Expr::Operation { op, args } => {
                let ra = Self::reduce_each(args, rec)?;
                let kept = copy_exprs(&ra);
                match fold_op_exec(op.clone(), ra) {
                    Ok(v) => Ok(v),
                    Err(_) => Ok(Expr::Operation { op: op.clone(), args: kept }),
                }
            },
            Expr::Array(v) => {
                let ra = Self::reduce_each(v, rec)?;
                Ok(Expr::Array(ra))
            },
            Expr::Interval { interval } => {
                let ra = Self::reduce_each(interval, rec)?;
                Ok(Expr::Interval { interval: ra })
            },
            Expr::BBox { bbox } => {
                let ra = Self::reduce_each(bbox, rec)?;
                Ok(Expr::BBox { bbox: ra })
            },
            Expr::Date { date } => {
                let d = date.reduce(rec)?;
                Ok(Expr::Date { date: Box::new(d) })
            },
            Expr::Timestamp { timestamp } => {
                let d = timestamp.reduce(rec)?;
                Ok(Expr::Timestamp { timestamp: Box::new(d) })
            },
            _ => Ok(self.copy()),
        }
    }

    /// Whether this expression holds for an optional record: its reduced form must be a
    /// boolean literal, else the error is `NonReduced`.
    pub fn matches(&self, rec: Option<&Json>) -> (r: Result<bool, Error>)
        ensures
            r matches Ok(b) ==> reduce_spec(self@, record_view(rec)) == Some(ExprV::Bool(b))
                && crate::laws::matches_spec(self@, record_view(rec)) == Some(b),
            r matches Err(e) ==> match reduce_spec(self@, record_view(rec)) {
                Some(v) => !(v is Bool) && e is NonReduced,
                None => e is InvalidJson,
            },
    {
        let x = self.reduce(rec)?;
        match x {
            Expr::Bool(b) => Ok(b),
            _ => Err(Error::NonReduced),
        }
    }
}

} // verus!
