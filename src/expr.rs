use vstd::prelude::*;
use crate::error::Error;
use crate::geometry::{geometry_wkt, Geometry, GeometryV};
use crate::number::{number_text, Number};
use crate::text::{
    chars_of, ident_chars, ident_text, push_chars, push_str,
    str_is, string_of,
};

verus! {

broadcast use vstd::std_specs::vec::group_vec_axioms, vstd::seq::group_seq_axioms;

/// A CQL2 expression.
#[derive(Debug)]
pub enum Expr {
    Operation { op: String, args: Vec<Expr> },
    Interval { interval: Vec<Expr> },
    Timestamp { timestamp: Box<Expr> },
    Date { date: Box<Expr> },
    Property { property: String },
    BBox { bbox: Vec<Expr> },
    Float(Number),
    Literal(String),
    Bool(bool),
    Null,
    Array(Vec<Expr>),
    Geometry(Geometry),
}

/// The mathematical form of an expression: strings as character sequences, children as
/// sequences.
pub enum ExprV {
    Operation { op: Seq<char>, args: Seq<ExprV> },
    Interval { interval: Seq<ExprV> },
    Timestamp { timestamp: Box<ExprV> },
    Date { date: Box<ExprV> },
    Property { property: Seq<char> },
    BBox { bbox: Seq<ExprV> },
    Float(Number),
    Literal(Seq<char>),
    Bool(bool),
    Null,
    Array(Seq<ExprV>),
    Geometry(GeometryV),
}

/// The view of an expression.
pub open spec fn expr_view(e: Expr) -> ExprV
    decreases e,
{
    match e {
        Expr::Operation { op, args } => ExprV::Operation { op: op@, args: expr_views(args@) },
        Expr::Interval { interval } => ExprV::Interval { interval: expr_views(interval@) },
        Expr::Timestamp { timestamp } => ExprV::Timestamp {
            timestamp: Box::new(expr_view(*timestamp)),
        },
        Expr::Date { date } => ExprV::Date { date: Box::new(expr_view(*date)) },
        Expr::Property { property } => ExprV::Property { property: property@ },
        Expr::BBox { bbox } => ExprV::BBox { bbox: expr_views(bbox@) },
        Expr::Float(n) => ExprV::Float(n),
        Expr::Literal(s) => ExprV::Literal(s@),
        Expr::Bool(b) => ExprV::Bool(b),
        Expr::Null => ExprV::Null,
        Expr::Array(v) => ExprV::Array(expr_views(v@)),
        Expr::Geometry(g) => ExprV::Geometry(g@),
    }
}

/// The views of a sequence of expressions.
pub open spec fn expr_views(es: Seq<Expr>) -> Seq<ExprV>
    decreases es,
{
    if es.len() == 0 {
        seq![]
    } else {
        expr_views(es.subrange(0, es.len() - 1)).push(expr_view(es[es.len() - 1]))
    }
}

impl View for Expr {
    type V = ExprV;

    open spec fn view(&self) -> ExprV {
        expr_view(*self)
    }
}

/// `expr_views` has one view per expression, in order.
pub proof fn lemma_expr_views(es: Seq<Expr>)
    ensures
        expr_views(es).len() == es.len(),
        forall|i: int| 0 <= i < es.len() ==> #[trigger] expr_views(es)[i] == es[i]@,
    decreases es.len(),
{
    if es.len() > 0 {
        let front = es.subrange(0, es.len() - 1);
        lemma_expr_views(front);
        assert forall|i: int| 0 <= i < es.len() implies #[trigger] expr_views(es)[i] == es[i]@ by {
            if i < es.len() - 1 {
                assert(front[i] == es[i]);
            }
        }
    }
}

/// The pieces of `ts` with `sep` between each two.
pub open spec fn join(ts: Seq<Seq<char>>, sep: Seq<char>) -> Seq<char>
    decreases ts.len(),
{
    if ts.len() == 0 {
        seq![]
    } else if ts.len() == 1 {
        ts[0]
    } else {
        join(ts.drop_last(), sep) + sep + ts.last()
    }
}

/// The canonical texts of a sequence of expressions, where each has one.
pub open spec fn texts_of(es: Seq<ExprV>) -> Option<Seq<Seq<char>>>
    decreases es,
{
    if es.len() == 0 {
        Some(seq![])
    } else {
        match (texts_of(es.subrange(0, es.len() - 1)), text_of(es[es.len() - 1])) {
            (Some(front), Some(t)) => Some(front.push(t)),
            _ => None,
        }
    }
}

/// Whether `op` is written infix between exactly two arguments.
pub open spec fn is_binary_text_op(op: Seq<char>) -> bool {
    op == "+"@ || op == "-"@ || op == "*"@ || op == "/"@ || op == "%"@ || op == "^"@ || op
        == "="@ || op == "<="@ || op == "<"@ || op == "<>"@ || op == ">"@ || op == ">="@
}

/// The canonical text of an operation with the given argument texts; `None` where a
/// fixed-arity operator has the wrong number of arguments.
pub open spec fn op_text(op: Seq<char>, ts: Seq<Seq<char>>) -> Option<Seq<char>> {
    if op == "and"@ {
        Some("("@ + join(ts, " AND "@) + ")"@)
    } else if op == "or"@ {
        Some("("@ + join(ts, " OR "@) + ")"@)
    } else if op == "like"@ {
        if ts.len() == 2 {
            Some("("@ + ts[0] + " LIKE "@ + ts[1] + ")"@)
        } else {
            None
        }
    } else if op == "in"@ {
        if ts.len() == 2 {
            Some("("@ + ts[0] + " IN "@ + ts[1] + ")"@)
        } else {
            None
        }
    } else if op == "between"@ {
        if ts.len() == 3 {
            Some("("@ + ts[0] + " BETWEEN "@ + ts[1] + " AND "@ + ts[2] + ")"@)
        } else {
            None
        }
    } else if op == "not"@ {
        if ts.len() == 1 {
            Some("(NOT "@ + ts[0] + ")"@)
        } else {
            None
        }
    } else if op == "isnull"@ {
        if ts.len() == 1 {
            Some("("@ + ts[0] + " IS NULL)"@)
        } else {
            None
        }
    } else if is_binary_text_op(op) {
        if ts.len() == 2 {
            Some("("@ + ts[0] + " "@ + op + " "@ + ts[1] + ")"@)
        } else {
            None
        }
    } else {
        Some(ident_text(op) + "("@ + join(ts, ", "@) + ")"@)
    }
}

/// The number of arguments that an operator written with a fixed arity takes.
pub open spec fn fixed_arity(op: Seq<char>) -> Option<nat> {
    if op == "and"@ || op == "or"@ {
        None
    } else if op == "like"@ || op == "in"@ {
        Some(2)
    } else if op == "between"@ {
        Some(3)
    } else if op == "not"@ || op == "isnull"@ {
        Some(1)
    } else if is_binary_text_op(op) {
        Some(2)
    } else {
        None
    }
}

/// The error for an operation whose arguments have texts but whose operator takes another
/// number of them: its name, the number it has and the number it takes.
pub open spec fn arity_error_of<T>(e: ExprV, r: Result<T, Error>) -> bool {
    (e is Operation && texts_of(e->Operation_args) is Some && fixed_arity(e->Operation_op) is Some
        && e->Operation_args.len() != fixed_arity(e->Operation_op)->0) ==> is_arity_error(
        r,
        e->Operation_op,
        e->Operation_args.len(),
        fixed_arity(e->Operation_op)->0,
    )
}

/// Whether a result is the wrong-arity error with the given name and counts.
pub open spec fn is_arity_error<T>(r: Result<T, Error>, op: Seq<char>, n: nat, k: nat) -> bool {
    match r {
        Err(Error::InvalidNumberOfArguments { name, actual, expected }) => name@ == op && actual
            == n && expected == k,
        _ => false,
    }
}

/// The canonical cql2-text of an expression; `None` where an operator has the wrong
/// number of arguments or a geometry has no WKT.
pub open spec fn text_of(e: ExprV) -> Option<Seq<char>>
    decreases e,
{
    match e {
        ExprV::Bool(b) => Some(
            if b {
                "true"@
            } else {
                "false"@
            },
        ),
        ExprV::Float(n) => Some(number_text(n)),
        ExprV::Literal(v) => Some(crate::sql::sql_string(v)),
        ExprV::Null => Some("NULL"@),
        ExprV::Property { property } => Some(ident_text(property)),
        ExprV::Interval { interval } => {
            if interval.len() != 2 {
                None
            } else {
                match texts_of(interval) {
                    Some(ts) => Some("INTERVAL("@ + ts[0] + ","@ + ts[1] + ")"@),
                    None => None,
                }
            }
        },
        ExprV::Date { date } => match text_of(*date) {
            Some(t) => Some("DATE("@ + t + ")"@),
            None => None,
        },
        ExprV::Timestamp { timestamp } => match text_of(*timestamp) {
            Some(t) => Some("TIMESTAMP("@ + t + ")"@),
            None => None,
        },
        ExprV::Geometry(g) => geometry_wkt(g),
        ExprV::Array(v) => match texts_of(v) {
            Some(ts) => Some("("@ + join(ts, ", "@) + ")"@),
            None => None,
        },
        ExprV::BBox { bbox } => match texts_of(bbox) {
            Some(ts) => Some("BBOX("@ + join(ts, ", "@) + ")"@),
            None => None,
        },
        ExprV::Operation { op, args } => match texts_of(args) {
            Some(ts) => op_text(op, ts),
            None => None,
        },
    }
}

/// Joins texts with a separator.
pub fn join_chars(ts: &Vec<Vec<char>>, sep: &str) -> (r: Vec<char>)
    ensures
        r@ == join(ts@.map_values(|t: Vec<char>| t@), sep@),
{
    let ghost views = ts@.map_values(|t: Vec<char>| t@);
    let mut out: Vec<char> = Vec::new();
    let mut i: usize = 0;
    while i < ts.len()
        invariant
            i <= ts.len(),
            views == ts@.map_values(|t: Vec<char>| t@),
            out@ == join(views.subrange(0, i as int), sep@),
        decreases ts.len() - i,
    {
        if i > 0 {
            push_str(&mut out, sep);
        }
        push_chars(&mut out, &ts[i]);
        proof {
            let sub = views.subrange(0, i + 1);
            assert(sub.drop_last() =~= views.subrange(0, i as int));
            assert(sub.last() == ts@[i as int]@);
            if i == 0 {
                assert(join(views.subrange(0, 0), sep@) == Seq::<char>::empty());
            }
        }
        i = i + 1;
    }
    assert(views.subrange(0, ts.len() as int) =~= views);
    out
}

/// Whether `op` is written infix between exactly two arguments.
fn binary_text_op(op: &str) -> (r: bool)
    ensures
        r == is_binary_text_op(op@),
{
    str_is(op, "+") || str_is(op, "-") || str_is(op, "*") || str_is(op, "/") || str_is(op, "%")
        || str_is(op, "^") || str_is(op, "=") || str_is(op, "<=") || str_is(op, "<") || str_is(
        op,
        "<>",
    ) || str_is(op, ">") || str_is(op, ">=")
}

/// The error for an operator `name` with `actual` arguments where it takes `expected`.
pub fn arity_error(name: &str, actual: usize, expected: usize) -> (r: Error)
    ensures
        r matches Error::InvalidNumberOfArguments { name: n, actual: a, expected: x } && n@
            == name@ && a == actual && x == expected,
{
    Error::InvalidNumberOfArguments { name: name.to_owned(), actual, expected }
}

impl Expr {
    /// The canonical texts of the expressions in `es`.
    pub fn texts(es: &Vec<Expr>) -> (r: Result<Vec<Vec<char>>, Error>)
        ensures
            r matches Ok(ts) ==> texts_of(expr_views(es@)) == Some(
                ts@.map_values(|t: Vec<char>| t@),
            ),
            r matches Ok(ts) ==> ts.len() == es.len(),
            r is Err ==> texts_of(expr_views(es@)) is None,
        decreases es@, 0nat,
    {
        let mut out: Vec<Vec<char>> = Vec::new();
        let mut i: usize = 0;
        while i < es.len()
            invariant
                i <= es.len(),
                out.len() == i,
                texts_of(expr_views(es@.subrange(0, i as int))) == Some(
                    out@.map_values(|t: Vec<char>| t@),
                ),
            decreases es.len() - i,
        {
            proof {
                assert(decreases_to!(es@ => es@[i as int]));
            }
            let r = es[i].text_chars();
            proof {
                let sub = es@.subrange(0, i + 1);
                assert(sub.subrange(0, i as int) =~= es@.subrange(0, i as int));
                assert(sub[i as int] == es@[i as int]);
                lemma_expr_views(es@);
                lemma_expr_views(sub);
                assert(expr_views(sub) =~= expr_views(es@).subrange(0, i + 1));
            }
            let t = match r {
                Ok(t) => t,
                Err(e) => {
                    proof {
                        lemma_texts_prefix_none(expr_views(es@), i + 1);
                    }
                    return Err(e);
                },
            };
            let ghost before = out@;
            out.push(t);
            proof {
                let sub = es@.subrange(0, i + 1);
                let vs = expr_views(sub);
                assert(sub.subrange(0, i as int) =~= es@.subrange(0, i as int));
                assert(vs.subrange(0, i as int) =~= expr_views(es@.subrange(0, i as int)));
                assert(vs[i as int] == es@[i as int]@);
                assert(out@.map_values(|t: Vec<char>| t@) =~= before.map_values(
                    |t: Vec<char>| t@,
                ).push(t@));
            }
            i = i + 1;
        }
        assert(es@.subrange(0, es.len() as int) =~= es@);
        proof {
            lemma_expr_views(es@);
        }
        Ok(out)
    }

    /// The canonical text of this expression, as characters.
    pub fn text_chars(&self) -> (r: Result<Vec<char>, Error>)
        ensures
            r matches Ok(t) ==> text_of(self@) == Some(t@),
            r is Err ==> text_of(self@) is None,
            arity_error_of(self@, r),
        decreases *self, 1nat,
    {
        match self {
            Expr::Bool(b) => {
                if *b {
                    Ok(chars_of("true"))
                } else {
                    Ok(chars_of("false"))
                }
            },
            Expr::Float(n) => Ok(n.to_chars()),
            Expr::Literal(v) => {
                Ok(crate::sql::sql_string_exec(v.as_str()))
            },
            Expr::Null => Ok(chars_of("NULL")),
            Expr::Property { property } => Ok(ident_chars(property.as_str())),
            Expr::Interval { interval } => {
                proof {
                    lemma_expr_views(interval@);
                }
                if interval.len() != 2 {
                    return Err(arity_error("interval", interval.len(), 2));
                }
                let ts = Self::texts(interval)?;
                let mut out = chars_of("INTERVAL(");
                push_chars(&mut out, &ts[0]);
                push_str(&mut out, ",");
                push_chars(&mut out, &ts[1]);
                push_str(&mut out, ")");
                Ok(out)
            },
            Expr::Date { date } => {
                let t = date.text_chars()?;
                let mut out = chars_of("DATE(");
                push_chars(&mut out, &t);
                push_str(&mut out, ")");
                Ok(out)
            },
            Expr::Timestamp { timestamp } => {
                let t = timestamp.text_chars()?;
                let mut out = chars_of("TIMESTAMP(");
                push_chars(&mut out, &t);
                push_str(&mut out, ")");
                Ok(out)
            },
            Expr::Geometry(g) => {
                let w = g.to_wkt()?;
                Ok(chars_of(w.as_str()))
            },
            Expr::Array(v) => {
                let ts = Self::texts(v)?;
                let mut out = chars_of("(");
                let j = join_chars(&ts, ", ");
                push_chars(&mut out, &j);
                push_str(&mut out, ")");
                Ok(out)
            },
            Expr::BBox { bbox } => {
                let ts = Self::texts(bbox)?;
                let mut out = chars_of("BBOX(");
                let j = join_chars(&ts, ", ");
                push_chars(&mut out, &j);
                push_str(&mut out, ")");
                Ok(out)
            },
            Expr::Operation { op, args } => {
                proof {
                    lemma_expr_views(args@);
                }
                let ts = Self::texts(args)?;
                Self::op_chars(op.as_str(), &ts)
            },
        }
    }

    /// The canonical text of operator `op` applied to arguments with texts `ts`.
    fn op_chars(op: &str, ts: &Vec<Vec<char>>) -> (r: Result<Vec<char>, Error>)
        ensures
            r matches Ok(t) ==> op_text(op@, ts@.map_values(|t: Vec<char>| t@)) == Some(t@),
            r is Err ==> op_text(op@, ts@.map_values(|t: Vec<char>| t@)) is None,
            (fixed_arity(op@) is Some && ts.len() != fixed_arity(op@)->0) ==> is_arity_error(
                r,
                op@,
                ts.len() as nat,
                fixed_arity(op@)->0,
            ),
    {
        let ghost views = ts@.map_values(|t: Vec<char>| t@);
        let n = ts.len();
        if str_is(op, "and") || str_is(op, "or") {
            let sep = if str_is(op, "and") {
                " AND "
            } else {
                " OR "
            };
            let mut out = chars_of("(");
            let j = join_chars(ts, sep);
            push_chars(&mut out, &j);
            push_str(&mut out, ")");
            Ok(out)
        } else if str_is(op, "like") || str_is(op, "in") {
            if n != 2 {
                return Err(arity_error(op, n, 2));
            }
            let mid = if str_is(op, "like") {
                " LIKE "
            } else {
                " IN "
            };
            let mut out = chars_of("(");
            push_chars(&mut out, &ts[0]);
            push_str(&mut out, mid);
            push_chars(&mut out, &ts[1]);
            push_str(&mut out, ")");
            Ok(out)
        } else if str_is(op, "between") {
            if n != 3 {
                return Err(arity_error(op, n, 3));
            }
            let mut out = chars_of("(");
            push_chars(&mut out, &ts[0]);
            push_str(&mut out, " BETWEEN ");
            push_chars(&mut out, &ts[1]);
            push_str(&mut out, " AND ");
            push_chars(&mut out, &ts[2]);
            push_str(&mut out, ")");
            Ok(out)
        } else if str_is(op, "not") {
            if n != 1 {
                return Err(arity_error(op, n, 1));
            }
            let mut out = chars_of("(NOT ");
            push_chars(&mut out, &ts[0]);
            push_str(&mut out, ")");
            Ok(out)
        } else if str_is(op, "isnull") {
            if n != 1 {
                return Err(arity_error(op, n, 1));
            }
            let mut out = chars_of("(");
            push_chars(&mut out, &ts[0]);
            push_str(&mut out, " IS NULL)");
            Ok(out)
        } else if binary_text_op(op) {
            if n != 2 {
                return Err(arity_error(op, n, 2));
            }
            let mut out = chars_of("(");
            push_chars(&mut out, &ts[0]);
            push_str(&mut out, " ");
            push_str(&mut out, op);
            push_str(&mut out, " ");
            push_chars(&mut out, &ts[1]);
            push_str(&mut out, ")");
            Ok(out)
        } else {
            let mut out = ident_chars(op);
            push_str(&mut out, "(");
            let j = join_chars(ts, ", ");
            push_chars(&mut out, &j);
            push_str(&mut out, ")");
            Ok(out)
        }
    }

    /// A copy of this expression.
    pub fn copy(&self) -> (r: Expr)
        ensures
            r@ == self@,
        decreases *self, 1nat,
    {
        match self {
            Expr::Operation { op, args } => Expr::Operation { op: op.clone(), args: copy_exprs(args) },
            Expr::Interval { interval } => Expr::Interval { interval: copy_exprs(interval) },
            Expr::Timestamp { timestamp } => Expr::Timestamp { timestamp: Box::new(timestamp.copy()) },
            Expr::Date { date } => Expr::Date { date: Box::new(date.copy()) },
            Expr::Property { property } => Expr::Property { property: property.clone() },
            Expr::BBox { bbox } => Expr::BBox { bbox: copy_exprs(bbox) },
            Expr::Float(n) => Expr::Float(*n),
            Expr::Literal(s) => Expr::Literal(s.clone()),
            Expr::Bool(b) => Expr::Bool(*b),
            Expr::Null => Expr::Null,
            Expr::Array(v) => Expr::Array(copy_exprs(v)),
            Expr::Geometry(g) => Expr::Geometry(g.copy()),
        }
    }

    /// Combines two expressions with `and`.
    pub fn and(self, other: Expr) -> (r: Expr)
        ensures
            r@ == (ExprV::Operation { op: "and"@, args: seq![self@, other@] }),
    {
        let v = vec![self, other];
        proof {
            lemma_expr_views(v@);
            assert(expr_views(v@) =~= seq![v@[0]@, v@[1]@]);
        }
        Expr::Operation { op: "and".to_owned(), args: v }
    }

    /// Converts this expression to cql2-text.
    pub fn to_text(&self) -> (r: Result<String, Error>)
        ensures
            r matches Ok(s) ==> text_of(self@) == Some(s@),
            r is Err ==> text_of(self@) is None,
            arity_error_of(self@, r),
    {
        let t = self.text_chars()?;
        Ok(string_of(&t))
    }
}

/// Copies of expressions.
pub fn copy_exprs(v: &Vec<Expr>) -> (r: Vec<Expr>)
    ensures
        expr_views(r@) == expr_views(v@),
    decreases v@, 0nat,
{
    let mut out: Vec<Expr> = Vec::new();
    let mut i: usize = 0;
    while i < v.len()
        invariant
            i <= v.len(),
            expr_views(out@) == expr_views(v@.subrange(0, i as int)),
            out.len() == i,
        decreases v.len() - i,
    {
        proof {
            assert(decreases_to!(v@ => v@[i as int]));
        }
        let c = v[i].copy();
        let ghost before = out@;
        out.push(c);
        proof {
            assert(out@.subrange(0, i as int) =~= before);
            let sub = v@.subrange(0, i + 1);
            assert(sub.subrange(0, i as int) =~= v@.subrange(0, i as int));
        }
        i = i + 1;
    }
    assert(v@.subrange(0, v.len() as int) =~= v@);
    out
}

/// The views of `a + b` are the views of `a` followed by those of `b`.
pub proof fn lemma_expr_views_append(a: Seq<Expr>, b: Seq<Expr>)
    ensures
        expr_views(a + b) == expr_views(a) + expr_views(b),
{
    lemma_expr_views(a);
    lemma_expr_views(b);
    lemma_expr_views(a + b);
    assert(expr_views(a + b) =~= expr_views(a) + expr_views(b));
}

/// Where some prefix of `es` has no text, neither has `es`.
pub proof fn lemma_texts_prefix_none(es: Seq<ExprV>, j: int)
    requires
        0 <= j <= es.len(),
        texts_of(es.subrange(0, j)) is None,
    ensures
        texts_of(es) is None,
    decreases es.len() - j,
{
    if j < es.len() {
        let next = es.subrange(0, j + 1);
        assert(next.subrange(0, j) =~= es.subrange(0, j));
        lemma_texts_prefix_none(es, j + 1);
    } else {
        assert(es.subrange(0, j) =~= es);
    }
}

impl vstd::std_specs::ops::AddSpecImpl for Expr {
    open spec fn obeys_add_spec() -> bool {
        false
    }

    open spec fn add_req(self, rhs: Expr) -> bool {
        true
    }

    open spec fn add_spec(self, rhs: Expr) -> Expr {
        Expr::Null
    }
}

impl core::ops::Add for Expr {
    type Output = Expr;

    /// Combines two expressions with `and`.
    fn add(self, other: Expr) -> (r: Expr)
        ensures
            r@ == (ExprV::Operation { op: "and"@, args: seq![self@, other@] }),
    {
        self.and(other)
    }
}

} // verus!
