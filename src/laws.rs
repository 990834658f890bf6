use vstd::prelude::*;
use crate::expr::{join, text_of, ExprV};
use crate::reduce::reduce_spec;
use crate::json::JsonV;
use crate::decode::{expr_of_json, exprs_of_json, member_index};
use crate::encode::{json_of, jsons_of};
use crate::geometry::GeometryV;
use crate::reduce::{
    has_bool, lemma_insert_at, fold_op, reduce_all, bool_fold, drop_bool, flatten, insert_sorted, keyed, sort_dedup, unkeyed, Keyed,
};
use crate::ops::{is_spatial_op, lower_ascii};
use crate::temporal::{temporal_relation, DateRange};
use crate::sql::{bin, nested_and, temporal_sql, call_sql, op_sql, spatial_function, sql_binop, sql_of, sqls_of, SqlOpts};
use crate::text::{ascii_lower, lemma_seq_lt_order, lemma_seq_lt_trans, seq_lt};

verus! {

/// Combining two expressions with `and` writes their texts joined by ` AND `, in
/// parentheses.
pub proof fn law_and_text(a: ExprV, b: ExprV)
    requires
        text_of(a) is Some,
        text_of(b) is Some,
    ensures
        text_of(ExprV::Operation { op: "and"@, args: seq![a, b] }) == Some(
            "("@ + text_of(a)->0 + " AND "@ + text_of(b)->0 + ")"@,
        ),
{
    let args = seq![a, b];
    let ta = text_of(a)->0;
    let tb = text_of(b)->0;
    let first = args.subrange(0, 1);
    let none = first.subrange(0, 0);
    assert(none =~= Seq::<ExprV>::empty());
    assert(crate::expr::texts_of(none) == Some(Seq::<Seq<char>>::empty()));
    assert(first.len() == 1 && first[0] == a);
    assert(crate::expr::texts_of(first) == Some(Seq::<Seq<char>>::empty().push(ta)));
    assert(args.len() == 2 && args[1] == b);
    let ts = Seq::<Seq<char>>::empty().push(ta).push(tb);
    assert(crate::expr::texts_of(args) == Some(ts));
    let one = ts.drop_last();
    assert(one =~= Seq::<Seq<char>>::empty().push(ta));
    assert(one.len() == 1 && one[0] == ta);
    assert(join(one, " AND "@) == ta);
    assert(ts.len() == 2 && ts.last() == tb);
    assert(join(ts, " AND "@) == ta + " AND "@ + tb);
}

/// What `matches` says of an expression and a record: the boolean that it reduces to.
pub open spec fn matches_spec(e: ExprV, rec: Option<JsonV>) -> Option<bool> {
    match reduce_spec(e, rec) {
        Some(ExprV::Bool(b)) => Some(b),
        _ => None,
    }
}

/// An expression that matches a record reduces against it to the literal `true`.
pub proof fn law_match_is_reduced_true(e: ExprV, rec: Option<JsonV>)
    requires
        matches_spec(e, rec) == Some(true),
    ensures
        reduce_spec(e, rec) == Some(ExprV::Bool(true)),
{
}

/// Whether keyed children are strictly increasing by key.
pub open spec fn strictly_sorted(s: Seq<Keyed>) -> bool {
    forall|i: int, j: int| 0 <= i < j < s.len() ==> seq_lt(#[trigger] s[i].0, #[trigger] s[j].0)
}

/// Whether each key is the canonical text of its expression.
pub open spec fn keys_are_texts(s: Seq<Keyed>) -> bool {
    forall|i: int| 0 <= i < s.len() ==> text_of((#[trigger] s[i]).1) == Some(s[i].0)
}

/// Pairing expressions with their texts keys each by its text.
pub proof fn lemma_keyed_texts(es: Seq<ExprV>)
    requires
        keyed(es) is Some,
    ensures
        keys_are_texts(keyed(es)->0),
        keyed(es)->0.len() == es.len(),
    decreases es.len(),
{
    if es.len() > 0 {
        lemma_keyed_texts(es.drop_last());
        let front = keyed(es.drop_last())->0;
        let ks = keyed(es)->0;
        assert forall|i: int| 0 <= i < ks.len() implies text_of((#[trigger] ks[i]).1) == Some(ks[i].0) by {
            if i < front.len() {
                assert(ks[i] == front[i]);
            }
        }
    }
}

/// Each child after insertion was there before or is the inserted one.
pub proof fn lemma_insert_members(s: Seq<Keyed>, x: Keyed)
    ensures
        forall|k: int| 0 <= k < insert_sorted(s, x).len() ==> (#[trigger] insert_sorted(s, x)[k]
            == x || s.contains(insert_sorted(s, x)[k])),
    decreases s.len(),
{
    if s.len() > 0 && s[0].0 != x.0 && !seq_lt(x.0, s[0].0) {
        let rest = s.drop_first();
        lemma_insert_members(rest, x);
        let r = insert_sorted(s, x);
        assert forall|k: int| 0 <= k < r.len() implies (#[trigger] r[k] == x || s.contains(r[k])) by {
            if k > 0 {
                let y = insert_sorted(rest, x)[k - 1];
                assert(r[k] == y);
                if y != x {
                    let m = choose|m: int| 0 <= m < rest.len() && rest[m] == y;
                    assert(s[m + 1] == y);
                }
            } else {
                assert(s[0] == r[0]);
            }
        }
    } else if s.len() > 0 && s[0].0 != x.0 {
        let r = insert_sorted(s, x);
        assert forall|k: int| 0 <= k < r.len() implies (#[trigger] r[k] == x || s.contains(r[k])) by {
            if k > 0 {
                assert(r[k] == s[k - 1]);
            }
        }
    }
}

/// Insertion keeps children strictly sorted and keyed by their texts.
pub proof fn lemma_insert_sorted(s: Seq<Keyed>, x: Keyed)
    requires
        strictly_sorted(s),
        keys_are_texts(s),
        text_of(x.1) == Some(x.0),
    ensures
        strictly_sorted(insert_sorted(s, x)),
        keys_are_texts(insert_sorted(s, x)),
    decreases s.len(),
{
    if s.len() == 0 {
    } else if s[0].0 == x.0 {
    } else if seq_lt(x.0, s[0].0) {
        let r = seq![x] + s;
        assert forall|i: int, j: int| 0 <= i < j < r.len() implies seq_lt(#[trigger] r[i].0, #[trigger] r[j].0) by {
            if i == 0 {
                if j > 1 {
                    assert(seq_lt(s[0].0, s[j - 1].0));
                    lemma_seq_lt_trans(x.0, s[0].0, s[j - 1].0);
                }
            } else {
                assert(r[i] == s[i - 1] && r[j] == s[j - 1]);
            }
        }
        assert forall|i: int| 0 <= i < r.len() implies text_of((#[trigger] r[i]).1) == Some(r[i].0) by {
            if i > 0 {
                assert(r[i] == s[i - 1]);
            }
        }
    } else {
        let rest = s.drop_first();
        assert(strictly_sorted(rest)) by {
            assert forall|i: int, j: int| 0 <= i < j < rest.len() implies seq_lt(#[trigger] rest[i].0, #[trigger] rest[j].0) by {
                assert(rest[i] == s[i + 1] && rest[j] == s[j + 1]);
            }
        }
        assert(keys_are_texts(rest)) by {
            assert forall|i: int| 0 <= i < rest.len() implies text_of((#[trigger] rest[i]).1) == Some(rest[i].0) by {
                assert(rest[i] == s[i + 1]);
            }
        }
        lemma_insert_sorted(rest, x);
        lemma_insert_members(rest, x);
        lemma_seq_lt_order(s[0].0, x.0);
        let t = insert_sorted(rest, x);
        let r = seq![s[0]] + t;
        assert(insert_sorted(s, x) == r);
        assert forall|i: int, j: int| 0 <= i < j < r.len() implies seq_lt(#[trigger] r[i].0, #[trigger] r[j].0) by {
            if i == 0 {
                let y = t[j - 1];
                assert(r[j] == y);
                if y != x {
                    let m = choose|m: int| 0 <= m < rest.len() && rest[m] == y;
                    assert(s[m + 1] == y);
                }
            } else {
                assert(r[i] == t[i - 1] && r[j] == t[j - 1]);
            }
        }
        assert forall|i: int| 0 <= i < r.len() implies text_of((#[trigger] r[i]).1) == Some(r[i].0) by {
            if i > 0 {
                assert(r[i] == t[i - 1]);
            }
        }
    }
}

/// Sorting leaves children strictly sorted and keyed by their texts.
pub proof fn lemma_sort_dedup(s: Seq<Keyed>)
    requires
        keys_are_texts(s),
    ensures
        strictly_sorted(sort_dedup(s)),
        keys_are_texts(sort_dedup(s)),
    decreases s.len(),
{
    if s.len() > 0 {
        let front = s.drop_last();
        assert(keys_are_texts(front)) by {
            assert forall|i: int| 0 <= i < front.len() implies text_of((#[trigger] front[i]).1) == Some(front[i].0) by {
                assert(front[i] == s[i]);
            }
        }
        lemma_sort_dedup(front);
        lemma_insert_sorted(sort_dedup(front), s.last());
    }
}

/// Dropping literals keeps the order and the keys, and keeps only children that were there.
pub proof fn lemma_drop_bool(s: Seq<Keyed>, b: bool)
    requires
        strictly_sorted(s),
        keys_are_texts(s),
    ensures
        strictly_sorted(drop_bool(s, b)),
        keys_are_texts(drop_bool(s, b)),
        forall|k: int| 0 <= k < drop_bool(s, b).len() ==> s.contains(#[trigger] drop_bool(s, b)[k]),
    decreases s.len(),
{
    if s.len() > 0 {
        let front = s.drop_last();
        assert(strictly_sorted(front)) by {
            assert forall|i: int, j: int| 0 <= i < j < front.len() implies seq_lt(#[trigger] front[i].0, #[trigger] front[j].0) by {
                assert(front[i] == s[i] && front[j] == s[j]);
            }
        }
        assert(keys_are_texts(front)) by {
            assert forall|i: int| 0 <= i < front.len() implies text_of((#[trigger] front[i]).1) == Some(front[i].0) by {
                assert(front[i] == s[i]);
            }
        }
        lemma_drop_bool(front, b);
        let d = drop_bool(front, b);
        let r = drop_bool(s, b);
        assert forall|k: int| 0 <= k < r.len() implies s.contains(#[trigger] r[k]) by {
            if k < d.len() {
                assert(r[k] == d[k]);
                let m = choose|m: int| 0 <= m < front.len() && front[m] == d[k];
                assert(s[m] == d[k]);
            } else {
                assert(r[k] == s.last());
                assert(s[s.len() - 1] == s.last());
            }
        }
        assert forall|i: int, j: int| 0 <= i < j < r.len() implies seq_lt(#[trigger] r[i].0, #[trigger] r[j].0) by {
            if j < d.len() {
                assert(r[i] == d[i] && r[j] == d[j]);
            } else {
                assert(r[i] == d[i]);
                let m = choose|m: int| 0 <= m < front.len() && front[m] == d[i];
                assert(s[m] == d[i]);
                assert(r[j] == s[s.len() - 1]);
            }
        }
        assert forall|i: int| 0 <= i < r.len() implies text_of((#[trigger] r[i]).1) == Some(r[i].0) by {
            if i < d.len() {
                assert(r[i] == d[i]);
            } else {
                assert(r[i] == s[s.len() - 1]);
            }
        }
    }
}

/// The children that folding an `and` or `or` keeps, in order.
pub open spec fn kept_children(op: Seq<char>, args: Seq<ExprV>) -> Seq<Keyed> {
    drop_bool(sort_dedup(keyed(flatten(op, args))->0), op == "and"@)
}

/// After folding, an `and` or `or` that remains an operation has children in strictly
/// increasing canonical text, so no two of them are equal.
pub proof fn law_fold_children_sorted(op: Seq<char>, args: Seq<ExprV>)
    requires
        op == "and"@ || op == "or"@,
        keyed(flatten(op, args)) is Some,
    ensures
        kept_children(op, args).len() >= 2 && !(bool_fold(op, args) matches Some(ExprV::Bool(_)))
            ==> bool_fold(op, args) == Some(
            ExprV::Operation { op, args: unkeyed(kept_children(op, args)) },
        ),
        forall|i: int, j: int|
            0 <= i < j < kept_children(op, args).len() ==> text_of(
                (#[trigger] kept_children(op, args)[i]).1,
            ) == Some(kept_children(op, args)[i].0) && seq_lt(
                kept_children(op, args)[i].0,
                (#[trigger] kept_children(op, args)[j]).0,
            ) && kept_children(op, args)[i].1 != kept_children(op, args)[j].1,
{
    let ks = keyed(flatten(op, args))->0;
    lemma_keyed_texts(flatten(op, args));
    lemma_sort_dedup(ks);
    lemma_drop_bool(sort_dedup(ks), op == "and"@);
    let kept = kept_children(op, args);
    assert forall|i: int, j: int| 0 <= i < j < kept.len() implies text_of((#[trigger] kept[i]).1)
        == Some(kept[i].0) && seq_lt(kept[i].0, (#[trigger] kept[j]).0) && kept[i].1 != kept[j].1 by {
        lemma_seq_lt_order(kept[i].0, kept[j].0);
        if kept[i].1 == kept[j].1 {
            assert(text_of(kept[j].1) == Some(kept[j].0));
        }
    }
}

/// A spatial operator becomes the `st_` function of the same name.
pub proof fn lemma_spatial_op_sql(o: SqlOpts, op: Seq<char>, args: Seq<ExprV>, a: Seq<Seq<char>>)
    requires
        is_spatial_op(op),
    ensures
        op_sql(o, op, args, a) == call_sql(o, "st_"@ + op.subrange(2, op.len() as int), a),
        lower_ascii(op) == op,
{
    reveal_strlit("isnull");
    reveal_strlit("not");
    reveal_strlit("between");
    reveal_strlit("in");
    reveal_strlit("like");
    reveal_strlit("accenti");
    reveal_strlit("casei");
    reveal_strlit("and");
    reveal_strlit("or");
    reveal_strlit("=");
    reveal_strlit("a_equals");
    reveal_strlit("eq");
    reveal_strlit("<>");
    reveal_strlit("!=");
    reveal_strlit("ne");
    reveal_strlit(">");
    reveal_strlit("gt");
    reveal_strlit(">=");
    reveal_strlit("ge");
    reveal_strlit("gte");
    reveal_strlit("<");
    reveal_strlit("lt");
    reveal_strlit("<=");
    reveal_strlit("le");
    reveal_strlit("lte");
    reveal_strlit("+");
    reveal_strlit("-");
    reveal_strlit("*");
    reveal_strlit("/");
    reveal_strlit("%");
    reveal_strlit("^");
    reveal_strlit("s_intersects");
    reveal_strlit("st_intersects");
    reveal_strlit("intersects");
    reveal_strlit("s_equals");
    reveal_strlit("st_equals");
    reveal_strlit("s_within");
    reveal_strlit("st_within");
    reveal_strlit("s_contains");
    reveal_strlit("st_contains");
    reveal_strlit("s_crosses");
    reveal_strlit("st_crosses");
    reveal_strlit("s_overlaps");
    reveal_strlit("st_overlaps");
    reveal_strlit("s_touches");
    reveal_strlit("st_touches");
    reveal_strlit("s_disjoint");
    reveal_strlit("st_disjoint");
    reveal_strlit("st_");
    assert(op.len() >= 8 && op[0] == 's' && op[1] == '_');
    assert(op != "isnull"@ && op != "not"@ && op != "between"@ && op != "in"@ && op != "like"@
        && op != "accenti"@ && op != "casei"@ && op != "and"@ && op != "or"@ && op != "^"@) by {
        assert("isnull"@[0] != 's' && "not"@[0] != 's' && "between"@[0] != 's' && "in"@[0] != 's'
            && "like"@[0] != 's' && "accenti"@[0] != 's' && "casei"@[0] != 's' && "and"@[0] != 's'
            && "or"@[0] != 's' && "^"@[0] != 's');
    }
    assert(sql_binop(op) is None) by {
        assert("="@[0] != 's' && "a_equals"@[0] != 's' && "eq"@[0] != 's' && "<>"@[0] != 's'
            && "!="@[0] != 's' && "ne"@[0] != 's' && ">"@[0] != 's' && "gt"@[0] != 's' && ">="@[0]
            != 's' && "ge"@[0] != 's' && "gte"@[0] != 's' && "<"@[0] != 's' && "lt"@[0] != 's'
            && "<="@[0] != 's' && "le"@[0] != 's' && "lte"@[0] != 's' && "+"@[0] != 's' && "-"@[0]
            != 's' && "*"@[0] != 's' && "/"@[0] != 's' && "%"@[0] != 's');
    }
    assert(spatial_function(op) == Some("st_"@ + op.subrange(2, op.len() as int))) by {
        assert("st_"@ + "s_intersects"@.subrange(2, 12) =~= "st_intersects"@);
        assert("st_"@ + "s_equals"@.subrange(2, 8) =~= "st_equals"@);
        assert("st_"@ + "s_within"@.subrange(2, 8) =~= "st_within"@);
        assert("st_"@ + "s_contains"@.subrange(2, 10) =~= "st_contains"@);
        assert("st_"@ + "s_crosses"@.subrange(2, 9) =~= "st_crosses"@);
        assert("st_"@ + "s_overlaps"@.subrange(2, 10) =~= "st_overlaps"@);
        assert("st_"@ + "s_touches"@.subrange(2, 9) =~= "st_touches"@);
        assert("st_"@ + "s_disjoint"@.subrange(2, 10) =~= "st_disjoint"@);
    }
    assert(lower_ascii(op) =~= op) by {
        assert forall|i: int| 0 <= i < op.len() implies #[trigger] ascii_lower(op[i]) == op[i] by {
            assert(!('A' <= op[i] && op[i] <= 'Z'));
        }
    }
}

/// Every spatial operator is written in SQL as a call of `st_` and its name without `s_`, on
/// the SQL of its arguments.
pub proof fn law_spatial_sql(o: SqlOpts, op: Seq<char>, args: Seq<ExprV>)
    requires
        is_spatial_op(op),
    ensures
        sql_of(o, ExprV::Operation { op, args }) == match sqls_of(o, args) {
            Some(a) => call_sql(o, "st_"@ + op.subrange(2, op.len() as int), a),
            None => None,
        },
{
    if let Some(a) = sqls_of(o, args) {
        lemma_spatial_op_sql(o, op, args, a);
    }
}

/// One end of one side of a temporal comparison.
pub enum End {
    LeftStart,
    LeftEnd,
    RightStart,
    RightEnd,
}

/// A comparison between two instants.
pub enum Cmp {
    Lt,
    Eq,
    Gt,
    Le,
    Ge,
}

/// A comparison between two ends.
pub type Atom = (End, Cmp, End);

/// The formula of a temporal operator: whether it is negated, and the comparisons it joins
/// with AND.
pub open spec fn temporal_formula(op: Seq<char>) -> Option<(bool, Seq<Atom>)> {
    let (ls, le, rs, re) = (End::LeftStart, End::LeftEnd, End::RightStart, End::RightEnd);
    if op == "t_before"@ {
        Some((false, seq![(le, Cmp::Lt, rs)]))
    } else if op == "t_after"@ {
        Some((false, seq![(re, Cmp::Lt, ls)]))
    } else if op == "t_meets"@ {
        Some((false, seq![(le, Cmp::Eq, rs)]))
    } else if op == "t_metby"@ {
        Some((false, seq![(re, Cmp::Eq, ls)]))
    } else if op == "t_overlaps"@ {
        Some((false, seq![(ls, Cmp::Lt, re), (rs, Cmp::Lt, le), (le, Cmp::Lt, re)]))
    } else if op == "t_overlappedby"@ {
        Some((false, seq![(rs, Cmp::Lt, le), (ls, Cmp::Lt, re), (re, Cmp::Lt, le)]))
    } else if op == "t_starts"@ {
        Some((false, seq![(ls, Cmp::Eq, rs), (le, Cmp::Lt, re)]))
    } else if op == "t_startedby"@ {
        Some((false, seq![(rs, Cmp::Eq, ls), (re, Cmp::Lt, le)]))
    } else if op == "t_during"@ {
        Some((false, seq![(ls, Cmp::Gt, rs), (le, Cmp::Lt, re)]))
    } else if op == "t_contains"@ {
        Some((false, seq![(rs, Cmp::Gt, ls), (re, Cmp::Lt, le)]))
    } else if op == "t_finishes"@ {
        Some((false, seq![(le, Cmp::Eq, re), (ls, Cmp::Gt, rs)]))
    } else if op == "t_finishedby"@ {
        Some((false, seq![(re, Cmp::Eq, le), (rs, Cmp::Gt, ls)]))
    } else if op == "t_equals"@ {
        Some((false, seq![(ls, Cmp::Eq, rs), (le, Cmp::Eq, re)]))
    } else if op == "t_disjoint"@ {
        Some((true, seq![(ls, Cmp::Le, re), (le, Cmp::Ge, rs)]))
    } else if op == "t_intersects"@ || op == "anyinteracts"@ {
        Some((false, seq![(ls, Cmp::Le, re), (le, Cmp::Ge, rs)]))
    } else {
        None
    }
}

/// The SQL text of an end.
pub open spec fn end_text(e: End, ls: Seq<char>, le: Seq<char>, rs: Seq<char>, re: Seq<char>) -> Seq<char> {
    match e {
        End::LeftStart => ls,
        End::LeftEnd => le,
        End::RightStart => rs,
        End::RightEnd => re,
    }
}

/// The SQL operator of a comparison.
pub open spec fn cmp_text(c: Cmp) -> Seq<char> {
    match c {
        Cmp::Lt => "<"@,
        Cmp::Eq => "="@,
        Cmp::Gt => ">"@,
        Cmp::Le => "<="@,
        Cmp::Ge => ">="@,
    }
}

/// The value of an end for two ranges.
pub open spec fn end_value(e: End, l: DateRange, r: DateRange) -> int {
    match e {
        End::LeftStart => l.start as int,
        End::LeftEnd => l.end as int,
        End::RightStart => r.start as int,
        End::RightEnd => r.end as int,
    }
}

/// Whether a comparison holds between two instants.
pub open spec fn cmp_value(c: Cmp, x: int, y: int) -> bool {
    match c {
        Cmp::Lt => x < y,
        Cmp::Eq => x == y,
        Cmp::Gt => x > y,
        Cmp::Le => x <= y,
        Cmp::Ge => x >= y,
    }
}

/// The SQL text of a comparison.
pub open spec fn atom_text(a: Atom, ls: Seq<char>, le: Seq<char>, rs: Seq<char>, re: Seq<char>) -> Seq<char> {
    bin(end_text(a.0, ls, le, rs, re), cmp_text(a.1), end_text(a.2, ls, le, rs, re))
}

/// The SQL text of a formula: one comparison alone, or the comparisons joined by AND in
/// parentheses, after `NOT` where it is negated.
pub open spec fn formula_text(f: (bool, Seq<Atom>), ls: Seq<char>, le: Seq<char>, rs: Seq<char>, re: Seq<char>) -> Seq<char> {
    let parts = f.1.map_values(|a: Atom| atom_text(a, ls, le, rs, re));
    if !f.0 && f.1.len() == 1 {
        parts[0]
    } else if f.0 {
        "NOT "@ + nested_and(parts)
    } else {
        nested_and(parts)
    }
}

/// Whether all comparisons hold for two ranges.
pub open spec fn all_hold(atoms: Seq<Atom>, l: DateRange, r: DateRange) -> bool
    decreases atoms.len(),
{
    if atoms.len() == 0 {
        true
    } else {
        cmp_value(atoms[0].1, end_value(atoms[0].0, l, r), end_value(atoms[0].2, l, r))
            && all_hold(atoms.drop_first(), l, r)
    }
}

/// The value of a formula for two ranges.
pub open spec fn formula_value(f: (bool, Seq<Atom>), l: DateRange, r: DateRange) -> bool {
    if f.0 {
        !all_hold(f.1, l, r)
    } else {
        all_hold(f.1, l, r)
    }
}

/// The names of the temporal operators are pairwise distinct.
pub proof fn lemma_temporal_names_distinct()
    ensures
        "t_before"@ != "t_after"@,
        "t_before"@ != "t_meets"@,
        "t_before"@ != "t_metby"@,
        "t_before"@ != "t_overlaps"@,
        "t_before"@ != "t_overlappedby"@,
        "t_before"@ != "t_starts"@,
        "t_before"@ != "t_startedby"@,
        "t_before"@ != "t_during"@,
        "t_before"@ != "t_contains"@,
        "t_before"@ != "t_finishes"@,
        "t_before"@ != "t_finishedby"@,
        "t_before"@ != "t_equals"@,
        "t_before"@ != "t_disjoint"@,
        "t_before"@ != "t_intersects"@,
        "t_before"@ != "anyinteracts"@,
        "t_after"@ != "t_meets"@,
        "t_after"@ != "t_metby"@,
        "t_after"@ != "t_overlaps"@,
        "t_after"@ != "t_overlappedby"@,
        "t_after"@ != "t_starts"@,
        "t_after"@ != "t_startedby"@,
        "t_after"@ != "t_during"@,
        "t_after"@ != "t_contains"@,
        "t_after"@ != "t_finishes"@,
        "t_after"@ != "t_finishedby"@,
        "t_after"@ != "t_equals"@,
        "t_after"@ != "t_disjoint"@,
        "t_after"@ != "t_intersects"@,
        "t_after"@ != "anyinteracts"@,
        "t_meets"@ != "t_metby"@,
        "t_meets"@ != "t_overlaps"@,
        "t_meets"@ != "t_overlappedby"@,
        "t_meets"@ != "t_starts"@,
        "t_meets"@ != "t_startedby"@,
        "t_meets"@ != "t_during"@,
        "t_meets"@ != "t_contains"@,
        "t_meets"@ != "t_finishes"@,
        "t_meets"@ != "t_finishedby"@,
        "t_meets"@ != "t_equals"@,
        "t_meets"@ != "t_disjoint"@,
        "t_meets"@ != "t_intersects"@,
        "t_meets"@ != "anyinteracts"@,
        "t_metby"@ != "t_overlaps"@,
        "t_metby"@ != "t_overlappedby"@,
        "t_metby"@ != "t_starts"@,
        "t_metby"@ != "t_startedby"@,
        "t_metby"@ != "t_during"@,
        "t_metby"@ != "t_contains"@,
        "t_metby"@ != "t_finishes"@,
        "t_metby"@ != "t_finishedby"@,
        "t_metby"@ != "t_equals"@,
        "t_metby"@ != "t_disjoint"@,
        "t_metby"@ != "t_intersects"@,
        "t_metby"@ != "anyinteracts"@,
        "t_overlaps"@ != "t_overlappedby"@,
        "t_overlaps"@ != "t_starts"@,
        "t_overlaps"@ != "t_startedby"@,
        "t_overlaps"@ != "t_during"@,
        "t_overlaps"@ != "t_contains"@,
        "t_overlaps"@ != "t_finishes"@,
        "t_overlaps"@ != "t_finishedby"@,
        "t_overlaps"@ != "t_equals"@,
        "t_overlaps"@ != "t_disjoint"@,
        "t_overlaps"@ != "t_intersects"@,
        "t_overlaps"@ != "anyinteracts"@,
        "t_overlappedby"@ != "t_starts"@,
        "t_overlappedby"@ != "t_startedby"@,
        "t_overlappedby"@ != "t_during"@,
        "t_overlappedby"@ != "t_contains"@,
        "t_overlappedby"@ != "t_finishes"@,
        "t_overlappedby"@ != "t_finishedby"@,
        "t_overlappedby"@ != "t_equals"@,
        "t_overlappedby"@ != "t_disjoint"@,
        "t_overlappedby"@ != "t_intersects"@,
        "t_overlappedby"@ != "anyinteracts"@,
        "t_starts"@ != "t_startedby"@,
        "t_starts"@ != "t_during"@,
        "t_starts"@ != "t_contains"@,
        "t_starts"@ != "t_finishes"@,
        "t_starts"@ != "t_finishedby"@,
        "t_starts"@ != "t_equals"@,
        "t_starts"@ != "t_disjoint"@,
        "t_starts"@ != "t_intersects"@,
        "t_starts"@ != "anyinteracts"@,
        "t_startedby"@ != "t_during"@,
        "t_startedby"@ != "t_contains"@,
        "t_startedby"@ != "t_finishes"@,
        "t_startedby"@ != "t_finishedby"@,
        "t_startedby"@ != "t_equals"@,
        "t_startedby"@ != "t_disjoint"@,
        "t_startedby"@ != "t_intersects"@,
        "t_startedby"@ != "anyinteracts"@,
        "t_during"@ != "t_contains"@,
        "t_during"@ != "t_finishes"@,
        "t_during"@ != "t_finishedby"@,
        "t_during"@ != "t_equals"@,
        "t_during"@ != "t_disjoint"@,
        "t_during"@ != "t_intersects"@,
        "t_during"@ != "anyinteracts"@,
        "t_contains"@ != "t_finishes"@,
        "t_contains"@ != "t_finishedby"@,
        "t_contains"@ != "t_equals"@,
        "t_contains"@ != "t_disjoint"@,
        "t_contains"@ != "t_intersects"@,
        "t_contains"@ != "anyinteracts"@,
        "t_finishes"@ != "t_finishedby"@,
        "t_finishes"@ != "t_equals"@,
        "t_finishes"@ != "t_disjoint"@,
        "t_finishes"@ != "t_intersects"@,
        "t_finishes"@ != "anyinteracts"@,
        "t_finishedby"@ != "t_equals"@,
        "t_finishedby"@ != "t_disjoint"@,
        "t_finishedby"@ != "t_intersects"@,
        "t_finishedby"@ != "anyinteracts"@,
        "t_equals"@ != "t_disjoint"@,
        "t_equals"@ != "t_intersects"@,
        "t_equals"@ != "anyinteracts"@,
        "t_disjoint"@ != "t_intersects"@,
        "t_disjoint"@ != "anyinteracts"@,
        "t_intersects"@ != "anyinteracts"@,
{
    reveal_strlit("t_before");
    reveal_strlit("t_after");
    reveal_strlit("t_meets");
    reveal_strlit("t_metby");
    reveal_strlit("t_overlaps");
    reveal_strlit("t_overlappedby");
    reveal_strlit("t_starts");
    reveal_strlit("t_startedby");
    reveal_strlit("t_during");
    reveal_strlit("t_contains");
    reveal_strlit("t_finishes");
    reveal_strlit("t_finishedby");
    reveal_strlit("t_equals");
    reveal_strlit("t_disjoint");
    reveal_strlit("t_intersects");
    reveal_strlit("anyinteracts");
    assert("t_before"@.len() == 8);
    assert("t_after"@.len() == 7);
    assert("t_meets"@.len() == 7);
    assert("t_metby"@.len() == 7);
    assert("t_overlaps"@.len() == 10);
    assert("t_overlappedby"@.len() == 14);
    assert("t_starts"@.len() == 8);
    assert("t_startedby"@.len() == 11);
    assert("t_during"@.len() == 8);
    assert("t_contains"@.len() == 10);
    assert("t_finishes"@.len() == 10);
    assert("t_finishedby"@.len() == 12);
    assert("t_equals"@.len() == 8);
    assert("t_disjoint"@.len() == 10);
    assert("t_intersects"@.len() == 12);
    assert("anyinteracts"@.len() == 12);
    assert("t_before"@[2] != "t_starts"@[2]);
    assert("t_before"@[2] != "t_during"@[2]);
    assert("t_before"@[2] != "t_equals"@[2]);
    assert("t_after"@[2] != "t_meets"@[2]);
    assert("t_after"@[2] != "t_metby"@[2]);
    assert("t_meets"@[4] != "t_metby"@[4]);
    assert("t_overlaps"@[2] != "t_contains"@[2]);
    assert("t_overlaps"@[2] != "t_finishes"@[2]);
    assert("t_overlaps"@[2] != "t_disjoint"@[2]);
    assert("t_starts"@[2] != "t_during"@[2]);
    assert("t_starts"@[2] != "t_equals"@[2]);
    assert("t_during"@[2] != "t_equals"@[2]);
    assert("t_contains"@[2] != "t_finishes"@[2]);
    assert("t_contains"@[2] != "t_disjoint"@[2]);
    assert("t_finishes"@[2] != "t_disjoint"@[2]);
    assert("t_finishedby"@[2] != "t_intersects"@[2]);
    assert("t_finishedby"@[0] != "anyinteracts"@[0]);
    assert("t_intersects"@[0] != "anyinteracts"@[0]);
}

/// The law for `t_before`.
proof fn case_t_before(l: DateRange, r: DateRange, ls: Seq<char>, le: Seq<char>, rs: Seq<char>, re: Seq<char>)
    ensures
        temporal_formula("t_before"@) == Some((false, seq![(End::LeftEnd, Cmp::Lt, End::RightStart)])),
        temporal_sql("t_before"@, ls, le, rs, re) == Some(formula_text((false, seq![(End::LeftEnd, Cmp::Lt, End::RightStart)]), ls, le, rs, re)),
        temporal_relation("t_before"@, l, r) == Some(formula_value((false, seq![(End::LeftEnd, Cmp::Lt, End::RightStart)]), l, r)),
{
    lemma_temporal_names_distinct();
    reveal_with_fuel(all_hold, 4);
    let f = (false, seq![(End::LeftEnd, Cmp::Lt, End::RightStart)]);
    let parts = f.1.map_values(|a: Atom| atom_text(a, ls, le, rs, re));
    assert(parts =~= seq![atom_text(f.1[0], ls, le, rs, re)]);
    assert(f.1.drop_first() =~= Seq::<Atom>::empty());
}

/// The law for `t_after`.
proof fn case_t_after(l: DateRange, r: DateRange, ls: Seq<char>, le: Seq<char>, rs: Seq<char>, re: Seq<char>)
    ensures
        temporal_formula("t_after"@) == Some((false, seq![(End::RightEnd, Cmp::Lt, End::LeftStart)])),
        temporal_sql("t_after"@, ls, le, rs, re) == Some(formula_text((false, seq![(End::RightEnd, Cmp::Lt, End::LeftStart)]), ls, le, rs, re)),
        temporal_relation("t_after"@, l, r) == Some(formula_value((false, seq![(End::RightEnd, Cmp::Lt, End::LeftStart)]), l, r)),
{
    lemma_temporal_names_distinct();
    reveal_with_fuel(all_hold, 4);
    let f = (false, seq![(End::RightEnd, Cmp::Lt, End::LeftStart)]);
    let parts = f.1.map_values(|a: Atom| atom_text(a, ls, le, rs, re));
    assert(parts =~= seq![atom_text(f.1[0], ls, le, rs, re)]);
    assert(f.1.drop_first() =~= Seq::<Atom>::empty());
}

/// The law for `t_meets`.
proof fn case_t_meets(l: DateRange, r: DateRange, ls: Seq<char>, le: Seq<char>, rs: Seq<char>, re: Seq<char>)
    ensures
        temporal_formula("t_meets"@) == Some((false, seq![(End::LeftEnd, Cmp::Eq, End::RightStart)])),
        temporal_sql("t_meets"@, ls, le, rs, re) == Some(formula_text((false, seq![(End::LeftEnd, Cmp::Eq, End::RightStart)]), ls, le, rs, re)),
        temporal_relation("t_meets"@, l, r) == Some(formula_value((false, seq![(End::LeftEnd, Cmp::Eq, End::RightStart)]), l, r)),
{
    lemma_temporal_names_distinct();
    reveal_with_fuel(all_hold, 4);
    let f = (false, seq![(End::LeftEnd, Cmp::Eq, End::RightStart)]);
    let parts = f.1.map_values(|a: Atom| atom_text(a, ls, le, rs, re));
    assert(parts =~= seq![atom_text(f.1[0], ls, le, rs, re)]);
    assert(f.1.drop_first() =~= Seq::<Atom>::empty());
}

/// The law for `t_metby`.
proof fn case_t_metby(l: DateRange, r: DateRange, ls: Seq<char>, le: Seq<char>, rs: Seq<char>, re: Seq<char>)
    ensures
        temporal_formula("t_metby"@) == Some((false, seq![(End::RightEnd, Cmp::Eq, End::LeftStart)])),
        temporal_sql("t_metby"@, ls, le, rs, re) == Some(formula_text((false, seq![(End::RightEnd, Cmp::Eq, End::LeftStart)]), ls, le, rs, re)),
        temporal_relation("t_metby"@, l, r) == Some(formula_value((false, seq![(End::RightEnd, Cmp::Eq, End::LeftStart)]), l, r)),
{
    lemma_temporal_names_distinct();
    reveal_with_fuel(all_hold, 4);
    let f = (false, seq![(End::RightEnd, Cmp::Eq, End::LeftStart)]);
    let parts = f.1.map_values(|a: Atom| atom_text(a, ls, le, rs, re));
    assert(parts =~= seq![atom_text(f.1[0], ls, le, rs, re)]);
    assert(f.1.drop_first() =~= Seq::<Atom>::empty());
}

/// The law for `t_overlaps`.
proof fn case_t_overlaps(l: DateRange, r: DateRange, ls: Seq<char>, le: Seq<char>, rs: Seq<char>, re: Seq<char>)
    ensures
        temporal_formula("t_overlaps"@) == Some((false, seq![(End::LeftStart, Cmp::Lt, End::RightEnd), (End::RightStart, Cmp::Lt, End::LeftEnd), (End::LeftEnd, Cmp::Lt, End::RightEnd)])),
        temporal_sql("t_overlaps"@, ls, le, rs, re) == Some(formula_text((false, seq![(End::LeftStart, Cmp::Lt, End::RightEnd), (End::RightStart, Cmp::Lt, End::LeftEnd), (End::LeftEnd, Cmp::Lt, End::RightEnd)]), ls, le, rs, re)),
        temporal_relation("t_overlaps"@, l, r) == Some(formula_value((false, seq![(End::LeftStart, Cmp::Lt, End::RightEnd), (End::RightStart, Cmp::Lt, End::LeftEnd), (End::LeftEnd, Cmp::Lt, End::RightEnd)]), l, r)),
{
    lemma_temporal_names_distinct();
    reveal_with_fuel(all_hold, 4);
    let f = (false, seq![(End::LeftStart, Cmp::Lt, End::RightEnd), (End::RightStart, Cmp::Lt, End::LeftEnd), (End::LeftEnd, Cmp::Lt, End::RightEnd)]);
    let parts = f.1.map_values(|a: Atom| atom_text(a, ls, le, rs, re));
    assert(parts =~= seq![atom_text(f.1[0], ls, le, rs, re), atom_text(f.1[1], ls, le, rs, re), atom_text(f.1[2], ls, le, rs, re)]);
    assert(f.1.drop_first() =~= seq![f.1[1], f.1[2]]);
    assert(f.1.drop_first().drop_first() =~= seq![f.1[2]]);
    assert(f.1.drop_first().drop_first().drop_first() =~= Seq::<Atom>::empty());
}

/// The law for `t_overlappedby`.
proof fn case_t_overlappedby(l: DateRange, r: DateRange, ls: Seq<char>, le: Seq<char>, rs: Seq<char>, re: Seq<char>)
    ensures
        temporal_formula("t_overlappedby"@) == Some((false, seq![(End::RightStart, Cmp::Lt, End::LeftEnd), (End::LeftStart, Cmp::Lt, End::RightEnd), (End::RightEnd, Cmp::Lt, End::LeftEnd)])),
        temporal_sql("t_overlappedby"@, ls, le, rs, re) == Some(formula_text((false, seq![(End::RightStart, Cmp::Lt, End::LeftEnd), (End::LeftStart, Cmp::Lt, End::RightEnd), (End::RightEnd, Cmp::Lt, End::LeftEnd)]), ls, le, rs, re)),
        temporal_relation("t_overlappedby"@, l, r) == Some(formula_value((false, seq![(End::RightStart, Cmp::Lt, End::LeftEnd), (End::LeftStart, Cmp::Lt, End::RightEnd), (End::RightEnd, Cmp::Lt, End::LeftEnd)]), l, r)),
{
    lemma_temporal_names_distinct();
    reveal_with_fuel(all_hold, 4);
    let f = (false, seq![(End::RightStart, Cmp::Lt, End::LeftEnd), (End::LeftStart, Cmp::Lt, End::RightEnd), (End::RightEnd, Cmp::Lt, End::LeftEnd)]);
    let parts = f.1.map_values(|a: Atom| atom_text(a, ls, le, rs, re));
    assert(parts =~= seq![atom_text(f.1[0], ls, le, rs, re), atom_text(f.1[1], ls, le, rs, re), atom_text(f.1[2], ls, le, rs, re)]);
    assert(f.1.drop_first() =~= seq![f.1[1], f.1[2]]);
    assert(f.1.drop_first().drop_first() =~= seq![f.1[2]]);
    assert(f.1.drop_first().drop_first().drop_first() =~= Seq::<Atom>::empty());
}

/// The law for `t_starts`.
proof fn case_t_starts(l: DateRange, r: DateRange, ls: Seq<char>, le: Seq<char>, rs: Seq<char>, re: Seq<char>)
    ensures
        temporal_formula("t_starts"@) == Some((false, seq![(End::LeftStart, Cmp::Eq, End::RightStart), (End::LeftEnd, Cmp::Lt, End::RightEnd)])),
        temporal_sql("t_starts"@, ls, le, rs, re) == Some(formula_text((false, seq![(End::LeftStart, Cmp::Eq, End::RightStart), (End::LeftEnd, Cmp::Lt, End::RightEnd)]), ls, le, rs, re)),
        temporal_relation("t_starts"@, l, r) == Some(formula_value((false, seq![(End::LeftStart, Cmp::Eq, End::RightStart), (End::LeftEnd, Cmp::Lt, End::RightEnd)]), l, r)),
{
    lemma_temporal_names_distinct();
    reveal_with_fuel(all_hold, 4);
    let f = (false, seq![(End::LeftStart, Cmp::Eq, End::RightStart), (End::LeftEnd, Cmp::Lt, End::RightEnd)]);
    let parts = f.1.map_values(|a: Atom| atom_text(a, ls, le, rs, re));
    assert(parts =~= seq![atom_text(f.1[0], ls, le, rs, re), atom_text(f.1[1], ls, le, rs, re)]);
    assert(f.1.drop_first() =~= seq![f.1[1]]);
    assert(f.1.drop_first().drop_first() =~= Seq::<Atom>::empty());
}

/// The law for `t_startedby`.
proof fn case_t_startedby(l: DateRange, r: DateRange, ls: Seq<char>, le: Seq<char>, rs: Seq<char>, re: Seq<char>)
    ensures
        temporal_formula("t_startedby"@) == Some((false, seq![(End::RightStart, Cmp::Eq, End::LeftStart), (End::RightEnd, Cmp::Lt, End::LeftEnd)])),
        temporal_sql("t_startedby"@, ls, le, rs, re) == Some(formula_text((false, seq![(End::RightStart, Cmp::Eq, End::LeftStart), (End::RightEnd, Cmp::Lt, End::LeftEnd)]), ls, le, rs, re)),
        temporal_relation("t_startedby"@, l, r) == Some(formula_value((false, seq![(End::RightStart, Cmp::Eq, End::LeftStart), (End::RightEnd, Cmp::Lt, End::LeftEnd)]), l, r)),
{
    lemma_temporal_names_distinct();
    reveal_with_fuel(all_hold, 4);
    let f = (false, seq![(End::RightStart, Cmp::Eq, End::LeftStart), (End::RightEnd, Cmp::Lt, End::LeftEnd)]);
    let parts = f.1.map_values(|a: Atom| atom_text(a, ls, le, rs, re));
    assert(parts =~= seq![atom_text(f.1[0], ls, le, rs, re), atom_text(f.1[1], ls, le, rs, re)]);
    assert(f.1.drop_first() =~= seq![f.1[1]]);
    assert(f.1.drop_first().drop_first() =~= Seq::<Atom>::empty());
}

/// The law for `t_during`.
proof fn case_t_during(l: DateRange, r: DateRange, ls: Seq<char>, le: Seq<char>, rs: Seq<char>, re: Seq<char>)
    ensures
        temporal_formula("t_during"@) == Some((false, seq![(End::LeftStart, Cmp::Gt, End::RightStart), (End::LeftEnd, Cmp::Lt, End::RightEnd)])),
        temporal_sql("t_during"@, ls, le, rs, re) == Some(formula_text((false, seq![(End::LeftStart, Cmp::Gt, End::RightStart), (End::LeftEnd, Cmp::Lt, End::RightEnd)]), ls, le, rs, re)),
        temporal_relation("t_during"@, l, r) == Some(formula_value((false, seq![(End::LeftStart, Cmp::Gt, End::RightStart), (End::LeftEnd, Cmp::Lt, End::RightEnd)]), l, r)),
{
    lemma_temporal_names_distinct();
    reveal_with_fuel(all_hold, 4);
    let f = (false, seq![(End::LeftStart, Cmp::Gt, End::RightStart), (End::LeftEnd, Cmp::Lt, End::RightEnd)]);
    let parts = f.1.map_values(|a: Atom| atom_text(a, ls, le, rs, re));
    assert(parts =~= seq![atom_text(f.1[0], ls, le, rs, re), atom_text(f.1[1], ls, le, rs, re)]);
    assert(f.1.drop_first() =~= seq![f.1[1]]);
    assert(f.1.drop_first().drop_first() =~= Seq::<Atom>::empty());
}

/// The law for `t_contains`.
proof fn case_t_contains(l: DateRange, r: DateRange, ls: Seq<char>, le: Seq<char>, rs: Seq<char>, re: Seq<char>)
    ensures
        temporal_formula("t_contains"@) == Some((false, seq![(End::RightStart, Cmp::Gt, End::LeftStart), (End::RightEnd, Cmp::Lt, End::LeftEnd)])),
        temporal_sql("t_contains"@, ls, le, rs, re) == Some(formula_text((false, seq![(End::RightStart, Cmp::Gt, End::LeftStart), (End::RightEnd, Cmp::Lt, End::LeftEnd)]), ls, le, rs, re)),
        temporal_relation("t_contains"@, l, r) == Some(formula_value((false, seq![(End::RightStart, Cmp::Gt, End::LeftStart), (End::RightEnd, Cmp::Lt, End::LeftEnd)]), l, r)),
{
    lemma_temporal_names_distinct();
    reveal_with_fuel(all_hold, 4);
    let f = (false, seq![(End::RightStart, Cmp::Gt, End::LeftStart), (End::RightEnd, Cmp::Lt, End::LeftEnd)]);
    let parts = f.1.map_values(|a: Atom| atom_text(a, ls, le, rs, re));
    assert(parts =~= seq![atom_text(f.1[0], ls, le, rs, re), atom_text(f.1[1], ls, le, rs, re)]);
    assert(f.1.drop_first() =~= seq![f.1[1]]);
    assert(f.1.drop_first().drop_first() =~= Seq::<Atom>::empty());
}

/// The law for `t_finishes`.
proof fn case_t_finishes(l: DateRange, r: DateRange, ls: Seq<char>, le: Seq<char>, rs: Seq<char>, re: Seq<char>)
    ensures
        temporal_formula("t_finishes"@) == Some((false, seq![(End::LeftEnd, Cmp::Eq, End::RightEnd), (End::LeftStart, Cmp::Gt, End::RightStart)])),
        temporal_sql("t_finishes"@, ls, le, rs, re) == Some(formula_text((false, seq![(End::LeftEnd, Cmp::Eq, End::RightEnd), (End::LeftStart, Cmp::Gt, End::RightStart)]), ls, le, rs, re)),
        temporal_relation("t_finishes"@, l, r) == Some(formula_value((false, seq![(End::LeftEnd, Cmp::Eq, End::RightEnd), (End::LeftStart, Cmp::Gt, End::RightStart)]), l, r)),
{
    lemma_temporal_names_distinct();
    reveal_with_fuel(all_hold, 4);
    let f = (false, seq![(End::LeftEnd, Cmp::Eq, End::RightEnd), (End::LeftStart, Cmp::Gt, End::RightStart)]);
    let parts = f.1.map_values(|a: Atom| atom_text(a, ls, le, rs, re));
    assert(parts =~= seq![atom_text(f.1[0], ls, le, rs, re), atom_text(f.1[1], ls, le, rs, re)]);
    assert(f.1.drop_first() =~= seq![f.1[1]]);
    assert(f.1.drop_first().drop_first() =~= Seq::<Atom>::empty());
}

/// The law for `t_finishedby`.
proof fn case_t_finishedby(l: DateRange, r: DateRange, ls: Seq<char>, le: Seq<char>, rs: Seq<char>, re: Seq<char>)
    ensures
        temporal_formula("t_finishedby"@) == Some((false, seq![(End::RightEnd, Cmp::Eq, End::LeftEnd), (End::RightStart, Cmp::Gt, End::LeftStart)])),
        temporal_sql("t_finishedby"@, ls, le, rs, re) == Some(formula_text((false, seq![(End::RightEnd, Cmp::Eq, End::LeftEnd), (End::RightStart, Cmp::Gt, End::LeftStart)]), ls, le, rs, re)),
        temporal_relation("t_finishedby"@, l, r) == Some(formula_value((false, seq![(End::RightEnd, Cmp::Eq, End::LeftEnd), (End::RightStart, Cmp::Gt, End::LeftStart)]), l, r)),
{
    lemma_temporal_names_distinct();
    reveal_with_fuel(all_hold, 4);
    let f = (false, seq![(End::RightEnd, Cmp::Eq, End::LeftEnd), (End::RightStart, Cmp::Gt, End::LeftStart)]);
    let parts = f.1.map_values(|a: Atom| atom_text(a, ls, le, rs, re));
    assert(parts =~= seq![atom_text(f.1[0], ls, le, rs, re), atom_text(f.1[1], ls, le, rs, re)]);
    assert(f.1.drop_first() =~= seq![f.1[1]]);
    assert(f.1.drop_first().drop_first() =~= Seq::<Atom>::empty());
}

/// The law for `t_equals`.
proof fn case_t_equals(l: DateRange, r: DateRange, ls: Seq<char>, le: Seq<char>, rs: Seq<char>, re: Seq<char>)
    ensures
        temporal_formula("t_equals"@) == Some((false, seq![(End::LeftStart, Cmp::Eq, End::RightStart), (End::LeftEnd, Cmp::Eq, End::RightEnd)])),
        temporal_sql("t_equals"@, ls, le, rs, re) == Some(formula_text((false, seq![(End::LeftStart, Cmp::Eq, End::RightStart), (End::LeftEnd, Cmp::Eq, End::RightEnd)]), ls, le, rs, re)),
        temporal_relation("t_equals"@, l, r) == Some(formula_value((false, seq![(End::LeftStart, Cmp::Eq, End::RightStart), (End::LeftEnd, Cmp::Eq, End::RightEnd)]), l, r)),
{
    lemma_temporal_names_distinct();
    reveal_with_fuel(all_hold, 4);
    let f = (false, seq![(End::LeftStart, Cmp::Eq, End::RightStart), (End::LeftEnd, Cmp::Eq, End::RightEnd)]);
    let parts = f.1.map_values(|a: Atom| atom_text(a, ls, le, rs, re));
    assert(parts =~= seq![atom_text(f.1[0], ls, le, rs, re), atom_text(f.1[1], ls, le, rs, re)]);
    assert(f.1.drop_first() =~= seq![f.1[1]]);
    assert(f.1.drop_first().drop_first() =~= Seq::<Atom>::empty());
}

/// The law for `t_disjoint`.
proof fn case_t_disjoint(l: DateRange, r: DateRange, ls: Seq<char>, le: Seq<char>, rs: Seq<char>, re: Seq<char>)
    ensures
        temporal_formula("t_disjoint"@) == Some((true, seq![(End::LeftStart, Cmp::Le, End::RightEnd), (End::LeftEnd, Cmp::Ge, End::RightStart)])),
        temporal_sql("t_disjoint"@, ls, le, rs, re) == Some(formula_text((true, seq![(End::LeftStart, Cmp::Le, End::RightEnd), (End::LeftEnd, Cmp::Ge, End::RightStart)]), ls, le, rs, re)),
        temporal_relation("t_disjoint"@, l, r) == Some(formula_value((true, seq![(End::LeftStart, Cmp::Le, End::RightEnd), (End::LeftEnd, Cmp::Ge, End::RightStart)]), l, r)),
{
    lemma_temporal_names_distinct();
    reveal_with_fuel(all_hold, 4);
    let f = (true, seq![(End::LeftStart, Cmp::Le, End::RightEnd), (End::LeftEnd, Cmp::Ge, End::RightStart)]);
    let parts = f.1.map_values(|a: Atom| atom_text(a, ls, le, rs, re));
    assert(parts =~= seq![atom_text(f.1[0], ls, le, rs, re), atom_text(f.1[1], ls, le, rs, re)]);
    assert(f.1.drop_first() =~= seq![f.1[1]]);
    assert(f.1.drop_first().drop_first() =~= Seq::<Atom>::empty());
}

/// The law for `t_intersects`.
proof fn case_t_intersects(l: DateRange, r: DateRange, ls: Seq<char>, le: Seq<char>, rs: Seq<char>, re: Seq<char>)
    ensures
        temporal_formula("t_intersects"@) == Some((false, seq![(End::LeftStart, Cmp::Le, End::RightEnd), (End::LeftEnd, Cmp::Ge, End::RightStart)])),
        temporal_sql("t_intersects"@, ls, le, rs, re) == Some(formula_text((false, seq![(End::LeftStart, Cmp::Le, End::RightEnd), (End::LeftEnd, Cmp::Ge, End::RightStart)]), ls, le, rs, re)),
        temporal_relation("t_intersects"@, l, r) == Some(formula_value((false, seq![(End::LeftStart, Cmp::Le, End::RightEnd), (End::LeftEnd, Cmp::Ge, End::RightStart)]), l, r)),
{
    lemma_temporal_names_distinct();
    reveal_with_fuel(all_hold, 4);
    let f = (false, seq![(End::LeftStart, Cmp::Le, End::RightEnd), (End::LeftEnd, Cmp::Ge, End::RightStart)]);
    let parts = f.1.map_values(|a: Atom| atom_text(a, ls, le, rs, re));
    assert(parts =~= seq![atom_text(f.1[0], ls, le, rs, re), atom_text(f.1[1], ls, le, rs, re)]);
    assert(f.1.drop_first() =~= seq![f.1[1]]);
    assert(f.1.drop_first().drop_first() =~= Seq::<Atom>::empty());
}

/// The law for `anyinteracts`.
proof fn case_anyinteracts(l: DateRange, r: DateRange, ls: Seq<char>, le: Seq<char>, rs: Seq<char>, re: Seq<char>)
    ensures
        temporal_formula("anyinteracts"@) == Some((false, seq![(End::LeftStart, Cmp::Le, End::RightEnd), (End::LeftEnd, Cmp::Ge, End::RightStart)])),
        temporal_sql("anyinteracts"@, ls, le, rs, re) == Some(formula_text((false, seq![(End::LeftStart, Cmp::Le, End::RightEnd), (End::LeftEnd, Cmp::Ge, End::RightStart)]), ls, le, rs, re)),
        temporal_relation("anyinteracts"@, l, r) == Some(formula_value((false, seq![(End::LeftStart, Cmp::Le, End::RightEnd), (End::LeftEnd, Cmp::Ge, End::RightStart)]), l, r)),
{
    lemma_temporal_names_distinct();
    reveal_with_fuel(all_hold, 4);
    let f = (false, seq![(End::LeftStart, Cmp::Le, End::RightEnd), (End::LeftEnd, Cmp::Ge, End::RightStart)]);
    let parts = f.1.map_values(|a: Atom| atom_text(a, ls, le, rs, re));
    assert(parts =~= seq![atom_text(f.1[0], ls, le, rs, re), atom_text(f.1[1], ls, le, rs, re)]);
    assert(f.1.drop_first() =~= seq![f.1[1]]);
    assert(f.1.drop_first().drop_first() =~= Seq::<Atom>::empty());
}

/// For every temporal operator, the SQL that the emitter writes from the ends of the two
/// sides is the text of a formula over those ends, and that formula, evaluated on two
/// ranges, is the operator's relation between them.
#[verifier::rlimit(100)]
pub proof fn law_temporal_sql(
    op: Seq<char>,
    l: DateRange,
    r: DateRange,
    ls: Seq<char>,
    le: Seq<char>,
    rs: Seq<char>,
    re: Seq<char>,
)
    requires
        crate::ops::is_temporal_op(op),
    ensures
        temporal_formula(op) is Some,
        temporal_sql(op, ls, le, rs, re) == Some(formula_text(temporal_formula(op)->0, ls, le, rs, re)),
        temporal_relation(op, l, r) == Some(formula_value(temporal_formula(op)->0, l, r)),
{
    if op == "t_before"@ {
        case_t_before(l, r, ls, le, rs, re);
    }
    if op == "t_after"@ {
        case_t_after(l, r, ls, le, rs, re);
    }
    if op == "t_meets"@ {
        case_t_meets(l, r, ls, le, rs, re);
    }
    if op == "t_metby"@ {
        case_t_metby(l, r, ls, le, rs, re);
    }
    if op == "t_overlaps"@ {
        case_t_overlaps(l, r, ls, le, rs, re);
    }
    if op == "t_overlappedby"@ {
        case_t_overlappedby(l, r, ls, le, rs, re);
    }
    if op == "t_starts"@ {
        case_t_starts(l, r, ls, le, rs, re);
    }
    if op == "t_startedby"@ {
        case_t_startedby(l, r, ls, le, rs, re);
    }
    if op == "t_during"@ {
        case_t_during(l, r, ls, le, rs, re);
    }
    if op == "t_contains"@ {
        case_t_contains(l, r, ls, le, rs, re);
    }
    if op == "t_finishes"@ {
        case_t_finishes(l, r, ls, le, rs, re);
    }
    if op == "t_finishedby"@ {
        case_t_finishedby(l, r, ls, le, rs, re);
    }
    if op == "t_equals"@ {
        case_t_equals(l, r, ls, le, rs, re);
    }
    if op == "t_disjoint"@ {
        case_t_disjoint(l, r, ls, le, rs, re);
    }
    if op == "t_intersects"@ {
        case_t_intersects(l, r, ls, le, rs, re);
    }
    if op == "anyinteracts"@ {
        case_anyinteracts(l, r, ls, le, rs, re);
    }
}

/// Whether the expression holds no WKT geometry (whose JSON form is GeoJSON text) and every
/// GeoJSON geometry in it reads back as that geometry.
pub open spec fn geometries_read_back(e: ExprV) -> bool
    decreases e,
{
    match e {
        ExprV::Geometry(GeometryV::GeoJSON(j)) => expr_of_json(j) == Some(e),
        ExprV::Geometry(GeometryV::Wkt(_)) => false,
        ExprV::Operation { op, args } => forall|i: int|
            0 <= i < args.len() ==> geometries_read_back(#[trigger] args[i]),
        ExprV::Interval { interval } => forall|i: int|
            0 <= i < interval.len() ==> geometries_read_back(#[trigger] interval[i]),
        ExprV::BBox { bbox } => forall|i: int| 0 <= i < bbox.len() ==> geometries_read_back(#[trigger] bbox[i]),
        ExprV::Array(v) => forall|i: int| 0 <= i < v.len() ==> geometries_read_back(#[trigger] v[i]),
        ExprV::Date { date } => geometries_read_back(*date),
        ExprV::Timestamp { timestamp } => geometries_read_back(*timestamp),
        _ => true,
    }
}

/// Reading back the JSON of a sequence of expressions gives the sequence.
pub proof fn lemma_read_back_all(es: Seq<ExprV>)
    requires
        jsons_of(es) is Some,
        forall|i: int| 0 <= i < es.len() ==> geometries_read_back(#[trigger] es[i]),
    ensures
        exprs_of_json(jsons_of(es)->0) == Some(es),
    decreases es, 0nat,
{
    if es.len() > 0 {
        let front = es.subrange(0, es.len() - 1);
        assert forall|i: int| 0 <= i < front.len() implies geometries_read_back(#[trigger] front[i]) by {
            assert(front[i] == es[i]);
        }
        lemma_read_back_all(front);
        law_json_read_back(es[es.len() - 1]);
        let js = jsons_of(es)->0;
        assert(js.subrange(0, js.len() - 1) =~= jsons_of(front)->0);
        assert(es =~= front.push(es[es.len() - 1]));
    }
}

/// An expression that has a cql2-json form, and whose GeoJSON geometries read back as
/// themselves, is read back from that form as itself.
pub proof fn law_json_read_back(e: ExprV)
    requires
        json_of(e) is Some,
        geometries_read_back(e),
    ensures
        expr_of_json(json_of(e)->0) == Some(e),
    decreases e, 1nat,
{
    reveal_strlit("op");
    reveal_strlit("args");
    reveal_strlit("interval");
    reveal_strlit("timestamp");
    reveal_strlit("date");
    reveal_strlit("property");
    reveal_strlit("bbox");
    reveal_strlit("type");
    assert("op"@.len() == 2 && "args"@.len() == 4 && "interval"@.len() == 8);
    assert("timestamp"@.len() == 9 && "date"@.len() == 4 && "property"@.len() == 8);
    assert("bbox"@.len() == 4 && "type"@.len() == 4);
    assert("args"@[0] != "date"@[0] && "args"@[0] != "bbox"@[0] && "args"@[0] != "type"@[0]);
    assert("date"@[0] != "bbox"@[0] && "date"@[0] != "type"@[0] && "bbox"@[0] != "type"@[0]);
    assert("interval"@[0] != "property"@[0]);
    assert("args"@ != "date"@ && "args"@ != "bbox"@ && "args"@ != "type"@);
    assert("date"@ != "bbox"@ && "date"@ != "type"@ && "bbox"@ != "type"@);
    assert("interval"@ != "property"@);
    match e {
        ExprV::Operation { op, args } => {
            lemma_read_back_all(args);
            assert("op"@ != "args"@);
            let js = jsons_of(args)->0;
            let ms = seq![("op"@, JsonV::Str(op)), ("args"@, JsonV::Array(js))];
            assert(json_of(e)->0 == JsonV::Object(ms));
            assert(member_index(ms, "op"@) == 0);
            assert(ms.drop_first() =~= seq![("args"@, JsonV::Array(js))]);
            assert(member_index(ms.drop_first(), "args"@) == 0);
            assert(member_index(ms, "args"@) == 1);
        },
        ExprV::Interval { interval } => {
            lemma_read_back_all(interval);
        },
        ExprV::BBox { bbox } => {
            lemma_read_back_all(bbox);
        },
        ExprV::Array(v) => {
            lemma_read_back_all(v);
        },
        ExprV::Date { date } => {
            law_json_read_back(*date);
        },
        ExprV::Timestamp { timestamp } => {
            law_json_read_back(*timestamp);
        },
        _ => {},
    }
}

/// The number of nodes of an expression.
pub open spec fn node_count(e: ExprV) -> nat
    decreases e,
{
    match e {
        ExprV::Operation { args, .. } => 1 + node_counts(args),
        ExprV::Interval { interval } => 1 + node_counts(interval),
        ExprV::BBox { bbox } => 1 + node_counts(bbox),
        ExprV::Array(v) => 1 + node_counts(v),
        ExprV::Date { date } => 1 + node_count(*date),
        ExprV::Timestamp { timestamp } => 1 + node_count(*timestamp),
        _ => 1,
    }
}

/// The number of nodes of a sequence of expressions.
pub open spec fn node_counts(es: Seq<ExprV>) -> nat
    decreases es,
{
    if es.len() == 0 {
        0
    } else {
        node_counts(es.subrange(0, es.len() - 1)) + node_count(es[es.len() - 1])
    }
}

/// A single expression's sequence has its nodes.
pub proof fn lemma_count_single(x: ExprV)
    ensures
        node_counts(seq![x]) == node_count(x),
{
    let s = seq![x];
    assert(s.subrange(0, 0) =~= Seq::<ExprV>::empty());
    assert(node_counts(Seq::<ExprV>::empty()) == 0);
    assert(s[0] == x);
}

/// Node counts add up over concatenation.
pub proof fn lemma_counts_append(a: Seq<ExprV>, b: Seq<ExprV>)
    ensures
        node_counts(a + b) == node_counts(a) + node_counts(b),
    decreases b.len(),
{
    if b.len() > 0 {
        let bf = b.subrange(0, b.len() - 1);
        lemma_counts_append(a, bf);
        let ab = a + b;
        assert(ab.subrange(0, ab.len() - 1) =~= a + bf);
        assert(ab[ab.len() - 1] == b[b.len() - 1]);
    } else {
        assert(a + b =~= a);
    }
}

/// Splicing nested children removes nodes and adds none.
pub proof fn lemma_flatten_count(op: Seq<char>, args: Seq<ExprV>)
    ensures
        node_counts(flatten(op, args)) <= node_counts(args),
    decreases args.len(),
{
    if args.len() > 0 {
        let front = args.drop_last();
        assert(args.subrange(0, args.len() - 1) =~= front);
        lemma_flatten_count(op, front);
        let x = args.last();
        let piece = if x is Operation && x->Operation_op == op {
            x->Operation_args
        } else {
            seq![x]
        };
        lemma_counts_append(flatten(op, front), piece);
        assert(node_counts(args) == node_counts(front) + node_count(x));
        if x is Operation && x->Operation_op == op {
            assert(node_count(x) == 1 + node_counts(x->Operation_args));
        } else {
            lemma_count_single(x);
        }
    }
}

/// The expressions of keyed children are the children.
pub proof fn lemma_keyed_unkeyed(es: Seq<ExprV>)
    requires
        keyed(es) is Some,
    ensures
        unkeyed(keyed(es)->0) == es,
    decreases es.len(),
{
    if es.len() > 0 {
        let front = es.drop_last();
        lemma_keyed_unkeyed(front);
        let kf = keyed(front)->0;
        let ks = keyed(es)->0;
        assert(ks == kf.push((text_of(es.last())->0, es.last())));
        assert(unkeyed(ks) =~= unkeyed(kf).push(es.last()));
        assert(front.push(es.last()) =~= es);
    } else {
        assert(unkeyed(keyed(es)->0) =~= es);
    }
}

/// Node counts of keyed children.
pub open spec fn kcount(s: Seq<Keyed>) -> nat {
    node_counts(unkeyed(s))
}

/// A child in front adds its nodes.
pub proof fn lemma_kcount_cons(a: Keyed, t: Seq<Keyed>)
    ensures
        kcount(seq![a] + t) == node_count(a.1) + kcount(t),
{
    assert(unkeyed(seq![a] + t) =~= seq![a.1] + unkeyed(t));
    lemma_counts_append(seq![a.1], unkeyed(t));
    lemma_count_single(a.1);
}

/// A child at the end adds its nodes.
pub proof fn lemma_kcount_push(t: Seq<Keyed>, a: Keyed)
    ensures
        kcount(t.push(a)) == kcount(t) + node_count(a.1),
{
    assert(unkeyed(t.push(a)) =~= unkeyed(t).push(a.1));
    assert(unkeyed(t).push(a.1).subrange(0, unkeyed(t).len() as int) =~= unkeyed(t));
}

/// Insertion adds at most the inserted child's nodes.
pub proof fn lemma_insert_count(s: Seq<Keyed>, x: Keyed)
    ensures
        kcount(insert_sorted(s, x)) <= kcount(s) + node_count(x.1),
    decreases s.len(),
{
    if s.len() == 0 {
        lemma_kcount_cons(x, s);
        assert(seq![x] + s =~= seq![x]);
    } else if s[0].0 == x.0 {
    } else if seq_lt(x.0, s[0].0) {
        lemma_kcount_cons(x, s);
    } else {
        let rest = s.drop_first();
        lemma_insert_count(rest, x);
        lemma_kcount_cons(s[0], insert_sorted(rest, x));
        lemma_kcount_cons(s[0], rest);
        assert(seq![s[0]] + rest =~= s);
    }
}

/// Sorting adds no nodes.
pub proof fn lemma_sort_count(s: Seq<Keyed>)
    ensures
        kcount(sort_dedup(s)) <= kcount(s),
    decreases s.len(),
{
    if s.len() > 0 {
        let front = s.drop_last();
        lemma_sort_count(front);
        lemma_insert_count(sort_dedup(front), s.last());
        lemma_kcount_push(front, s.last());
        assert(front.push(s.last()) =~= s);
    }
}

/// Dropping literals adds no nodes.
pub proof fn lemma_drop_count(s: Seq<Keyed>, b: bool)
    ensures
        kcount(drop_bool(s, b)) <= kcount(s),
    decreases s.len(),
{
    if s.len() > 0 {
        let front = s.drop_last();
        lemma_drop_count(front, b);
        lemma_kcount_push(front, s.last());
        assert(front.push(s.last()) =~= s);
        if s.last().1 != ExprV::Bool(b) {
            lemma_kcount_push(drop_bool(front, b), s.last());
            assert(drop_bool(front, b) + seq![s.last()] =~= drop_bool(front, b).push(s.last()));
        } else {
            assert(drop_bool(front, b) + Seq::<Keyed>::empty() =~= drop_bool(front, b));
        }
    }
}

/// Folding an operation over reduced arguments gives no more nodes than the operation.
pub proof fn lemma_fold_count(op: Seq<char>, args: Seq<ExprV>)
    requires
        fold_op(op, args) is Some,
    ensures
        node_count(fold_op(op, args)->0) <= 1 + node_counts(args),
{
    if (op == "and"@ || op == "or"@) && flatten(op, args).contains(ExprV::Bool(op != "and"@)) {
        assert(fold_op(op, args) == Some(ExprV::Bool(op != "and"@)));
    } else if op == "and"@ || op == "or"@ {
        let flat = flatten(op, args);
        lemma_flatten_count(op, args);
        let ks = keyed(flat)->0;
        lemma_keyed_unkeyed(flat);
        lemma_sort_count(ks);
        let sorted = sort_dedup(ks);
        lemma_drop_count(sorted, op == "and"@);
        let rest = drop_bool(sorted, op == "and"@);
        if rest.len() == 1 {
            assert(unkeyed(rest) =~= seq![rest[0].1]);
            assert(seq![rest[0].1].subrange(0, 0) =~= Seq::<ExprV>::empty());
        }
    } else if args.len() == 2 && !(op == "not"@) && !(op == "casei"@) && !(op == "accenti"@) && !(
    op == "between"@) {
        let l = args[0];
        let r = args[1];
        if let Some(v) = crate::ops::binary_value(op, l, r) {
            assert(node_count(v) == 1);
        }
    }
}

/// Whether a record gives every property a scalar: `null`, a boolean, a number or a string.
pub open spec fn gives_scalars(rec: Option<JsonV>) -> bool {
    match rec {
        None => true,
        Some(j) => forall|p: Seq<char>| #[trigger] crate::decode::lookup_property(j, p) matches Some(v) ==> (
        v is Null || v is Bool || v is Number || v is Str),
    }
}

/// Reduced sequences have no more nodes than the sequences.
pub proof fn lemma_reduce_all_count(es: Seq<ExprV>, rec: Option<JsonV>)
    requires
        gives_scalars(rec),
        reduce_all(es, rec) is Some,
    ensures
        node_counts(reduce_all(es, rec)->0) <= node_counts(es),
    decreases es, 0nat,
{
    if es.len() > 0 {
        let front = es.subrange(0, es.len() - 1);
        lemma_reduce_all_count(front, rec);
        law_reduce_not_larger(es[es.len() - 1], rec);
        let ra = reduce_all(es, rec)->0;
        assert(ra.subrange(0, ra.len() - 1) =~= reduce_all(front, rec)->0);
    }
}

/// Where the record gives every property it has a scalar, the reduced form of an expression
/// has no more nodes than the expression.
pub proof fn law_reduce_not_larger(e: ExprV, rec: Option<JsonV>)
    requires
        gives_scalars(rec),
        reduce_spec(e, rec) is Some,
    ensures
        node_count(reduce_spec(e, rec)->0) <= node_count(e),
    decreases e, 1nat,
{
    match e {
        ExprV::Property { property } => {
            if let Some(j) = rec {
                if let Some(v) = crate::decode::lookup_property(j, property) {
                    assert(v is Null || v is Bool || v is Number || v is Str);
                }
            }
        },
        ExprV::Operation { op, args } => {
            lemma_reduce_all_count(args, rec);
            if fold_op(op, reduce_all(args, rec)->0) is Some {
                lemma_fold_count(op, reduce_all(args, rec)->0);
            }
        },
        ExprV::Array(v) => {
            lemma_reduce_all_count(v, rec);
        },
        ExprV::Interval { interval } => {
            lemma_reduce_all_count(interval, rec);
        },
        ExprV::BBox { bbox } => {
            lemma_reduce_all_count(bbox, rec);
        },
        ExprV::Date { date } => {
            law_reduce_not_larger(*date, rec);
        },
        ExprV::Timestamp { timestamp } => {
            law_reduce_not_larger(*timestamp, rec);
        },
        _ => {},
    }
}

/// Whether an `and` or `or` operation's children are as folding leaves them: at least two,
/// each with a text, strictly increasing by it, none a boolean literal and none the same
/// operator.
pub open spec fn folded_children(op: Seq<char>, args: Seq<ExprV>) -> bool {
    &&& args.len() >= 2
    &&& forall|i: int| 0 <= i < args.len() ==> text_of(#[trigger] args[i]) is Some
    &&& forall|i: int, j: int|
        0 <= i < j < args.len() ==> seq_lt(text_of(#[trigger] args[i])->0, text_of(#[trigger] args[j])->0)
    &&& forall|i: int| 0 <= i < args.len() ==> !(#[trigger] args[i] is Bool)
    &&& forall|i: int|
        0 <= i < args.len() ==> !((#[trigger] args[i]) is Operation && args[i]->Operation_op == op)
}

/// Whether an expression is in the form that reduction against a record leaves: properties
/// that the record lacks, folded boolean operations, other operations that do not fold, and
/// the same all the way down.
pub open spec fn normal(e: ExprV, rec: Option<JsonV>) -> bool
    decreases e,
{
    match e {
        ExprV::Operation { op, args } => (forall|i: int| 0 <= i < args.len() ==> normal(#[trigger] args[i], rec))
            && if op == "and"@ || op == "or"@ {
            folded_children(op, args) || (keyed(flatten(op, args)) is None && !flatten(
                op,
                args,
            ).contains(ExprV::Bool(op != "and"@)))
        } else {
            fold_op(op, args) == Some(e)
        },
        ExprV::Interval { interval } => forall|i: int|
            0 <= i < interval.len() ==> normal(#[trigger] interval[i], rec),
        ExprV::BBox { bbox } => forall|i: int| 0 <= i < bbox.len() ==> normal(#[trigger] bbox[i], rec),
        ExprV::Array(v) => forall|i: int| 0 <= i < v.len() ==> normal(#[trigger] v[i], rec),
        ExprV::Date { date } => normal(*date, rec),
        ExprV::Timestamp { timestamp } => normal(*timestamp, rec),
        ExprV::Property { property } => match rec {
            None => true,
            Some(j) => crate::decode::lookup_property(j, property) is None,
        },
        _ => true,
    }
}

/// Splicing changes nothing where no child is the same operator.
pub proof fn lemma_flatten_id(op: Seq<char>, args: Seq<ExprV>)
    requires
        forall|i: int| 0 <= i < args.len() ==> !((#[trigger] args[i]) is Operation && args[i]->Operation_op == op),
    ensures
        flatten(op, args) == args,
    decreases args.len(),
{
    if args.len() > 0 {
        let front = args.drop_last();
        assert forall|i: int| 0 <= i < front.len() implies !((#[trigger] front[i]) is Operation && front[i]->Operation_op == op) by {
            assert(front[i] == args[i]);
        }
        lemma_flatten_id(op, front);
        assert(front + seq![args.last()] =~= args);
    }
}

/// The keys of children with texts are their texts.
pub proof fn lemma_keyed_texts_of(es: Seq<ExprV>)
    requires
        forall|i: int| 0 <= i < es.len() ==> text_of(#[trigger] es[i]) is Some,
    ensures
        keyed(es) is Some,
        keyed(es)->0.len() == es.len(),
        forall|i: int| 0 <= i < es.len() ==> #[trigger] keyed(es)->0[i] == (text_of(es[i])->0, es[i]),
    decreases es.len(),
{
    if es.len() > 0 {
        let front = es.drop_last();
        assert forall|i: int| 0 <= i < front.len() implies text_of(#[trigger] front[i]) is Some by {
            assert(front[i] == es[i]);
        }
        lemma_keyed_texts_of(front);
        let ks = keyed(es)->0;
        assert forall|i: int| 0 <= i < es.len() implies #[trigger] ks[i] == (text_of(es[i])->0, es[i]) by {
            if i < front.len() {
                assert(front[i] == es[i]);
            }
        }
    }
}

/// Sorting children that are strictly sorted already changes nothing.
pub proof fn lemma_sort_dedup_id(s: Seq<Keyed>)
    requires
        strictly_sorted(s),
    ensures
        sort_dedup(s) == s,
    decreases s.len(),
{
    if s.len() > 0 {
        let front = s.drop_last();
        assert(strictly_sorted(front)) by {
            assert forall|i: int, j: int| 0 <= i < j < front.len() implies seq_lt(#[trigger] front[i].0, #[trigger] front[j].0) by {
                assert(front[i] == s[i] && front[j] == s[j]);
            }
        }
        lemma_sort_dedup_id(front);
        assert forall|j: int| 0 <= j < front.len() implies seq_lt(#[trigger] front[j].0, s.last().0) by {
            assert(front[j] == s[j]);
        }
        lemma_insert_at(front, s.last(), front.len() as int);
        assert(front.insert(front.len() as int, s.last()) =~= s);
    }
}

/// Dropping a literal that no child is changes nothing.
pub proof fn lemma_drop_bool_id(s: Seq<Keyed>, b: bool)
    requires
        forall|i: int| 0 <= i < s.len() ==> (#[trigger] s[i]).1 != ExprV::Bool(b),
    ensures
        drop_bool(s, b) == s,
    decreases s.len(),
{
    if s.len() > 0 {
        let front = s.drop_last();
        assert forall|i: int| 0 <= i < front.len() implies (#[trigger] front[i]).1 != ExprV::Bool(b) by {
            assert(front[i] == s[i]);
        }
        lemma_drop_bool_id(front, b);
        assert(front + seq![s.last()] =~= s);
    }
}

/// A normal `and` or `or` folds to itself.
pub proof fn lemma_fold_normal_bool(op: Seq<char>, args: Seq<ExprV>)
    requires
        op == "and"@ || op == "or"@,
        folded_children(op, args),
    ensures
        bool_fold(op, args) == Some(ExprV::Operation { op, args }),
{
    lemma_flatten_id(op, args);
    assert(!args.contains(ExprV::Bool(op != "and"@))) by {
        if args.contains(ExprV::Bool(op != "and"@)) {
            let i = choose|i: int| 0 <= i < args.len() && args[i] == ExprV::Bool(op != "and"@);
            assert(!(args[i] is Bool));
        }
    }
    lemma_keyed_texts_of(args);
    let ks = keyed(args)->0;
    assert(strictly_sorted(ks)) by {
        assert forall|i: int, j: int| 0 <= i < j < ks.len() implies seq_lt(#[trigger] ks[i].0, #[trigger] ks[j].0) by {
            assert(ks[i] == (text_of(args[i])->0, args[i]));
            assert(ks[j] == (text_of(args[j])->0, args[j]));
        }
    }
    lemma_sort_dedup_id(ks);
    assert(!has_bool(ks, op != "and"@)) by {
        if has_bool(ks, op != "and"@) {
            let i = choose|i: int| 0 <= i < ks.len() && #[trigger] ks[i].1 == ExprV::Bool(op != "and"@);
            assert(ks[i] == (text_of(args[i])->0, args[i]));
        }
    }
    assert forall|i: int| 0 <= i < ks.len() implies (#[trigger] ks[i]).1 != ExprV::Bool(op == "and"@) by {
        assert(ks[i] == (text_of(args[i])->0, args[i]));
    }
    lemma_drop_bool_id(ks, op == "and"@);
    assert(unkeyed(ks) =~= args) by {
        assert forall|i: int| 0 <= i < args.len() implies unkeyed(ks)[i] == args[i] by {
            assert(ks[i] == (text_of(args[i])->0, args[i]));
        }
    }
}

/// Reducing normal expressions one by one changes none of them.
pub proof fn lemma_normal_all(es: Seq<ExprV>, rec: Option<JsonV>)
    requires
        forall|i: int| 0 <= i < es.len() ==> normal(#[trigger] es[i], rec),
    ensures
        reduce_all(es, rec) == Some(es),
    decreases es, 0nat,
{
    if es.len() > 0 {
        let front = es.subrange(0, es.len() - 1);
        assert forall|i: int| 0 <= i < front.len() implies normal(#[trigger] front[i], rec) by {
            assert(front[i] == es[i]);
        }
        lemma_normal_all(front, rec);
        lemma_normal_fixed(es[es.len() - 1], rec);
        assert(front.push(es[es.len() - 1]) =~= es);
    }
}

/// A normal expression reduces to itself.
pub proof fn lemma_normal_fixed(e: ExprV, rec: Option<JsonV>)
    requires
        normal(e, rec),
    ensures
        reduce_spec(e, rec) == Some(e),
    decreases e, 1nat,
{
    match e {
        ExprV::Operation { op, args } => {
            lemma_normal_all(args, rec);
            if (op == "and"@ || op == "or"@) && folded_children(op, args) {
                lemma_fold_normal_bool(op, args);
            }
        },
        ExprV::Interval { interval } => {
            lemma_normal_all(interval, rec);
        },
        ExprV::BBox { bbox } => {
            lemma_normal_all(bbox, rec);
        },
        ExprV::Array(v) => {
            lemma_normal_all(v, rec);
        },
        ExprV::Date { date } => {
            lemma_normal_fixed(*date, rec);
        },
        ExprV::Timestamp { timestamp } => {
            lemma_normal_fixed(*timestamp, rec);
        },
        _ => {},
    }
}

/// The arguments of an operation with a canonical text have canonical texts.
pub proof fn lemma_texts_some(es: Seq<ExprV>)
    requires
        crate::expr::texts_of(es) is Some,
    ensures
        forall|j: int| 0 <= j < es.len() ==> text_of(#[trigger] es[j]) is Some,
    decreases es.len(),
{
    if es.len() > 0 {
        let front = es.subrange(0, es.len() - 1);
        lemma_texts_some(front);
        assert forall|j: int| 0 <= j < es.len() implies text_of(#[trigger] es[j]) is Some by {
            if j < front.len() {
                assert(front[j] == es[j]);
            }
        }
    }
}

/// Where every child of `args` and every child of a nested child of the same operator has a
/// canonical text, the spliced children have keys.
pub proof fn lemma_flatten_keyed(op: Seq<char>, args: Seq<ExprV>)
    requires
        forall|i: int| 0 <= i < args.len() ==> text_of(#[trigger] args[i]) is Some,
    ensures
        keyed(flatten(op, args)) is Some,
    decreases args.len(),
{
    if args.len() > 0 {
        let front = args.drop_last();
        assert forall|i: int| 0 <= i < front.len() implies text_of(#[trigger] front[i]) is Some by {
            assert(front[i] == args[i]);
        }
        lemma_flatten_keyed(op, front);
        let x = args.last();
        let piece = if x is Operation && x->Operation_op == op {
            x->Operation_args
        } else {
            seq![x]
        };
        if x is Operation && x->Operation_op == op {
            lemma_texts_some(x->Operation_args);
        }
        let ff = flatten(op, front);
        lemma_keyed_texts(ff);
        lemma_flatten_keyed_all(ff, piece);
    }
}

/// Where every expression of two sequences has a canonical text, so has every one of both.
pub proof fn lemma_flatten_keyed_all(a: Seq<ExprV>, b: Seq<ExprV>)
    requires
        keyed(a) is Some,
        forall|i: int| 0 <= i < b.len() ==> text_of(#[trigger] b[i]) is Some,
    ensures
        keyed(a + b) is Some,
{
    lemma_keyed_texts(a);
    let ka = keyed(a)->0;
    assert forall|i: int| 0 <= i < (a + b).len() implies text_of(#[trigger] (a + b)[i]) is Some by {
        if i < a.len() {
            assert((a + b)[i] == a[i]);
            assert(unkeyed(ka)[i] == ka[i].1);
            lemma_keyed_unkeyed(a);
        } else {
            assert((a + b)[i] == b[i - a.len()]);
        }
    }
    lemma_keyed_texts_of(a + b);
}

/// The children after splicing are normal; where they all have keys, none is the spliced
/// operator.
pub proof fn lemma_flatten_normal(op: Seq<char>, args: Seq<ExprV>, rec: Option<JsonV>)
    requires
        op == "and"@ || op == "or"@,
        forall|i: int| 0 <= i < args.len() ==> normal(#[trigger] args[i], rec),
        keyed(flatten(op, args)) is Some,
    ensures
        forall|k: int| 0 <= k < flatten(op, args).len() ==> normal(#[trigger] flatten(op, args)[k], rec)
            && !(flatten(op, args)[k] is Operation && flatten(op, args)[k]->Operation_op == op),
    decreases args.len(),
{
    if args.len() > 0 {
        let front = args.drop_last();
        assert forall|i: int| 0 <= i < front.len() implies normal(#[trigger] front[i], rec) by {
            assert(front[i] == args[i]);
        }
        let x = args.last();
        assert(normal(x, rec));
        let ff = flatten(op, front);
        let piece = if x is Operation && x->Operation_op == op {
            x->Operation_args
        } else {
            seq![x]
        };
        let r = flatten(op, args);
        assert(r == ff + piece);
        lemma_keyed_texts(r);
        lemma_keyed_unkeyed(r);
        assert forall|k: int| 0 <= k < r.len() implies text_of(#[trigger] r[k]) is Some by {
            assert(unkeyed(keyed(r)->0)[k] == keyed(r)->0[k].1);
        }
        assert(keyed(ff) is Some) by {
            assert forall|k: int| 0 <= k < ff.len() implies text_of(#[trigger] ff[k]) is Some by {
                assert(r[k] == ff[k]);
            }
            lemma_keyed_texts_of(ff);
        }
        lemma_flatten_normal(op, front, rec);
        if x is Operation && x->Operation_op == op {
            let xa = x->Operation_args;
            assert forall|j: int| 0 <= j < xa.len() implies text_of(#[trigger] xa[j]) is Some by {
                assert(r[ff.len() + j] == xa[j]);
            }
            if !folded_children(op, xa) {
                lemma_flatten_keyed(op, xa);
            }
        }
        assert forall|k: int| 0 <= k < r.len() implies normal(#[trigger] r[k], rec) && !(r[k] is Operation
            && r[k]->Operation_op == op) by {
            if k < ff.len() {
                assert(r[k] == ff[k]);
            } else {
                assert(r[k] == piece[k - ff.len()]);
            }
        }
    }
}

/// The children after sorting were children before.
pub proof fn lemma_sort_members(s: Seq<Keyed>)
    ensures
        forall|k: int| 0 <= k < sort_dedup(s).len() ==> s.contains(#[trigger] sort_dedup(s)[k]),
    decreases s.len(),
{
    if s.len() > 0 {
        let front = s.drop_last();
        lemma_sort_members(front);
        lemma_insert_members(sort_dedup(front), s.last());
        let r = sort_dedup(s);
        assert forall|k: int| 0 <= k < r.len() implies s.contains(#[trigger] r[k]) by {
            if r[k] == s.last() {
                assert(s[s.len() - 1] == s.last());
            } else {
                let sf = sort_dedup(front);
                assert(sf.contains(r[k]));
                let m = choose|m: int| 0 <= m < sf.len() && sf[m] == r[k];
                assert(front.contains(sf[m]));
                let n = choose|n: int| 0 <= n < front.len() && front[n] == sf[m];
                assert(s[n] == front[n]);
            }
        }
    }
}

/// No child is left that is the dropped literal.
pub proof fn lemma_drop_bool_none(s: Seq<Keyed>, b: bool)
    ensures
        forall|k: int| 0 <= k < drop_bool(s, b).len() ==> (#[trigger] drop_bool(s, b)[k]).1 != ExprV::Bool(b),
    decreases s.len(),
{
    if s.len() > 0 {
        let front = s.drop_last();
        lemma_drop_bool_none(front, b);
        let d = drop_bool(front, b);
        let r = drop_bool(s, b);
        assert forall|k: int| 0 <= k < r.len() implies (#[trigger] r[k]).1 != ExprV::Bool(b) by {
            if k < d.len() {
                assert(r[k] == d[k]);
            }
        }
    }
}

/// Folding an `and` or `or` over normal children gives a normal expression.
pub proof fn lemma_bool_fold_normal(op: Seq<char>, args: Seq<ExprV>, rec: Option<JsonV>)
    requires
        op == "and"@ || op == "or"@,
        forall|i: int| 0 <= i < args.len() ==> normal(#[trigger] args[i], rec),
        bool_fold(op, args) is Some,
    ensures
        normal(bool_fold(op, args)->0, rec),
{
    let is_and = op == "and"@;
    let flat = flatten(op, args);
    if flat.contains(ExprV::Bool(!is_and)) {
        assert(bool_fold(op, args) == Some(ExprV::Bool(!is_and)));
    } else {
        assert(keyed(flat) is Some);
        lemma_flatten_normal(op, args, rec);
        let ks = keyed(flat)->0;
        lemma_keyed_texts(flat);
        lemma_keyed_unkeyed(flat);
        assert forall|k: int| 0 <= k < ks.len() implies normal((#[trigger] ks[k]).1, rec) && !(ks[k].1 is Operation
            && ks[k].1->Operation_op == op) by {
            assert(unkeyed(ks)[k] == ks[k].1);
            assert(flat[k] == ks[k].1);
        }
        let sorted = sort_dedup(ks);
        lemma_sort_dedup(ks);
        lemma_sort_members(ks);
        if !has_bool(sorted, !is_and) {
            let rest = drop_bool(sorted, is_and);
            lemma_drop_bool(sorted, is_and);
            lemma_drop_bool_none(sorted, is_and);
            assert forall|k: int| 0 <= k < rest.len() implies normal((#[trigger] rest[k]).1, rec) && !(rest[k].1 is Operation
                && rest[k].1->Operation_op == op) && !(rest[k].1 is Bool) by {
                assert(sorted.contains(rest[k]));
                let m = choose|m: int| 0 <= m < sorted.len() && sorted[m] == rest[k];
                assert(ks.contains(sorted[m]));
                let n = choose|n: int| 0 <= n < ks.len() && ks[n] == sorted[m];
                assert(normal(ks[n].1, rec));
                if rest[k].1 is Bool {
                    assert(rest[k].1 == ExprV::Bool(!is_and) || rest[k].1 == ExprV::Bool(is_and));
                    assert(sorted[m].1 != ExprV::Bool(!is_and));
                }
            }
            if rest.len() >= 2 {
                let kids = unkeyed(rest);
                assert forall|i: int| 0 <= i < kids.len() implies normal(#[trigger] kids[i], rec) by {
                    assert(kids[i] == rest[i].1);
                }
                assert(folded_children(op, kids)) by {
                    assert forall|i: int| 0 <= i < kids.len() implies text_of(#[trigger] kids[i]) is Some && !(kids[i] is Bool)
                        && !(kids[i] is Operation && kids[i]->Operation_op == op) by {
                        assert(kids[i] == rest[i].1);
                    }
                    assert forall|i: int, j: int| 0 <= i < j < kids.len() implies seq_lt(
                        text_of(#[trigger] kids[i])->0,
                        text_of(#[trigger] kids[j])->0,
                    ) by {
                        assert(kids[i] == rest[i].1 && kids[j] == rest[j].1);
                        assert(seq_lt(rest[i].0, rest[j].0));
                    }
                }
            } else if rest.len() == 1 {
                assert(normal(rest[0].1, rec));
            }
        }
    }
}

/// Folding an operation over normal arguments gives a normal expression.
pub proof fn lemma_fold_normal(op: Seq<char>, args: Seq<ExprV>, rec: Option<JsonV>)
    requires
        forall|i: int| 0 <= i < args.len() ==> normal(#[trigger] args[i], rec),
        fold_op(op, args) is Some,
    ensures
        normal(fold_op(op, args)->0, rec),
{
    if op == "and"@ || op == "or"@ {
        lemma_bool_fold_normal(op, args, rec);
    } else if args.len() == 2 && !(op == "not"@) && !(op == "casei"@) && !(op == "accenti"@) && !(
    op == "between"@) {
        if let Some(v) = crate::ops::binary_value(op, args[0], args[1]) {
            assert(v is Bool || v is Float);
        }
    }
}

/// Reducing a sequence against a record that gives scalars leaves normal expressions.
pub proof fn lemma_reduce_all_normal(es: Seq<ExprV>, rec: Option<JsonV>)
    requires
        gives_scalars(rec),
        reduce_all(es, rec) is Some,
    ensures
        forall|i: int| 0 <= i < reduce_all(es, rec)->0.len() ==> normal(#[trigger] reduce_all(es, rec)->0[i], rec),
        reduce_all(es, rec)->0.len() == es.len(),
    decreases es, 0nat,
{
    if es.len() > 0 {
        let front = es.subrange(0, es.len() - 1);
        lemma_reduce_all_normal(front, rec);
        lemma_reduce_normal(es[es.len() - 1], rec);
        let ra = reduce_all(es, rec)->0;
        let rf = reduce_all(front, rec)->0;
        assert forall|i: int| 0 <= i < ra.len() implies normal(#[trigger] ra[i], rec) by {
            if i < rf.len() {
                assert(ra[i] == rf[i]);
            }
        }
    }
}

/// Reducing against a record that gives scalars leaves a normal expression.
pub proof fn lemma_reduce_normal(e: ExprV, rec: Option<JsonV>)
    requires
        gives_scalars(rec),
        reduce_spec(e, rec) is Some,
    ensures
        normal(reduce_spec(e, rec)->0, rec),
    decreases e, 1nat,
{
    match e {
        ExprV::Property { property } => {
            if let Some(j) = rec {
                if let Some(v) = crate::decode::lookup_property(j, property) {
                    assert(v is Null || v is Bool || v is Number || v is Str);
                }
            }
        },
        ExprV::Operation { op, args } => {
            lemma_reduce_all_normal(args, rec);
            if fold_op(op, reduce_all(args, rec)->0) is Some {
                lemma_fold_normal(op, reduce_all(args, rec)->0, rec);
            }
        },
        ExprV::Array(v) => {
            lemma_reduce_all_normal(v, rec);
        },
        ExprV::Interval { interval } => {
            lemma_reduce_all_normal(interval, rec);
        },
        ExprV::BBox { bbox } => {
            lemma_reduce_all_normal(bbox, rec);
        },
        ExprV::Date { date } => {
            lemma_reduce_normal(*date, rec);
        },
        ExprV::Timestamp { timestamp } => {
            lemma_reduce_normal(*timestamp, rec);
        },
        _ => {},
    }
}

/// Reduction is idempotent against a record that gives every property it has a scalar:
/// reducing the reduced form again gives it back.
pub proof fn law_reduce_idempotent(e: ExprV, rec: Option<JsonV>)
    requires
        gives_scalars(rec),
        reduce_spec(e, rec) is Some,
    ensures
        reduce_spec(reduce_spec(e, rec)->0, rec) == reduce_spec(e, rec),
{
    lemma_reduce_normal(e, rec);
    lemma_normal_fixed(reduce_spec(e, rec)->0, rec);
}

} // verus!
