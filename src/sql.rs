use sqlparser::ast::{Expr as SqlAst, SelectItem, SetExpr, Statement};
use sqlparser::dialect::PostgreSqlDialect;
use sqlparser::parser::Parser;
use vstd::prelude::*;
use crate::decode::get_member;
use crate::error::Error;
use crate::expr::{join, join_chars, lemma_expr_views, Expr, ExprV, expr_views};
use crate::geometry::{Geometry, GeometryV};
use crate::json::{Json, JsonV};
use crate::number::number_text;
use crate::ops::{lower_ascii, lower_ascii_exec};
use crate::text::{chars_of, push_chars, push_str, quote_identifier, str_is, string_of, dquoted, ident_left_bare};

verus! {

broadcast use vstd::std_specs::vec::group_vec_axioms, vstd::seq::group_seq_axioms;

/// Whether a name that the SQL emitter looks up is a function or a property.
#[derive(Clone, Copy, Debug, PartialEq, Eq, Structural)]
pub enum NameKind {
    /// Function names such as `st_intersects`.
    Function,
    /// Property names such as `collection`.
    Property,
}

/// The SQL dialect to write.
#[derive(Clone, Copy, Debug, PartialEq, Eq, Structural)]
pub enum Dialect {
    /// PostgreSQL with PostGIS.
    Postgres,
    /// DuckDB with its spatial extension: array operators become list functions.
    DuckDb,
}

/// Options for writing SQL: a name mapping `{"functions": {..}, "properties": {..}}`, whose
/// values are SQL fragments, and the dialect.
#[derive(Debug)]
pub struct ToSqlOptions {
    pub resolver: Option<Json>,
    pub dialect: Dialect,
}

/// The mathematical form of the options.
pub struct SqlOpts {
    pub resolver: Option<JsonV>,
    pub duck: bool,
}

impl ToSqlOptions {
    /// The options' mathematical form.
    pub open spec fn spec(&self) -> SqlOpts {
        SqlOpts {
            resolver: match self.resolver {
                Some(j) => Some(j@),
                None => None,
            },
            duck: self.dialect == Dialect::DuckDb,
        }
    }

    /// No name mapping, PostgreSQL.
    pub fn new() -> (r: ToSqlOptions)
        ensures
            r.spec().resolver is None,
            !r.spec().duck,
    {
        ToSqlOptions { resolver: None, dialect: Dialect::Postgres }
    }

    /// A name mapping given as JSON, PostgreSQL.
    pub fn with_json(map: &Json) -> (r: ToSqlOptions)
        ensures
            r.spec().resolver == Some(map@),
            !r.spec().duck,
    {
        ToSqlOptions { resolver: Some(map.copy()), dialect: Dialect::Postgres }
    }

    /// The same options for DuckDB.
    pub fn duckdb(self) -> (r: ToSqlOptions)
        ensures
            r.spec().resolver == self.spec().resolver,
            r.spec().duck,
    {
        ToSqlOptions { resolver: self.resolver, dialect: Dialect::DuckDb }
    }
}

/// What sqlparser (PostgreSQL dialect) reads as the one expression of `SELECT <s>`: its
/// rendering, and whether it is a plain or dotted identifier.
pub uninterp spec fn sql_fragment_of(s: Seq<char>) -> Option<(Seq<char>, bool)>;

/// Relies on sqlparser's `Parser::parse_sql` with `PostgreSqlDialect` on `SELECT <s>`, and on
/// the `Display` of the expression that stands first in the projection.
#[verifier::external_body]
fn parse_sql_fragment(s: &str) -> (r: Option<(String, bool)>)
    ensures
        r matches Some((t, b)) ==> sql_fragment_of(s@) == Some((t@, b)),
        r is None ==> sql_fragment_of(s@) is None,
{
    let statements = Parser::parse_sql(&PostgreSqlDialect {}, &format!("SELECT {s}")).ok()?;
    let Some(Statement::Query(query)) = statements.into_iter().next() else { return None };
    let SetExpr::Select(select) = *query.body else { return None };
    let Some(SelectItem::UnnamedExpr(expr)) = select.projection.into_iter().next() else {
        return None
    };
    let is_name = matches!(expr, SqlAst::Identifier(_) | SqlAst::CompoundIdentifier(_));
    Some((expr.to_string(), is_name))
}

/// A SQL string literal: in single quotes, with single quotes doubled.
pub open spec fn sql_string(s: Seq<char>) -> Seq<char> {
    "'"@ + doubled_single(s) + "'"@
}

/// `s` with `'` doubled.
pub open spec fn doubled_single(s: Seq<char>) -> Seq<char>
    decreases s.len(),
{
    if s.len() == 0 {
        seq![]
    } else {
        let front = doubled_single(s.drop_last());
        if s.last() == '\'' {
            front + seq!['\'', '\'']
        } else {
            front.push(s.last())
        }
    }
}

/// The section of the name mapping for a kind of name.
pub open spec fn section_name(kind: NameKind) -> Seq<char> {
    match kind {
        NameKind::Function => "functions"@,
        NameKind::Property => "properties"@,
    }
}

/// What the name mapping makes of a name: `Some(None)` where it has nothing for it,
/// `Some(Some(fragment))` where it maps it, `None` where the mapping is no mapping of strings.
pub open spec fn resolved(resolver: Option<JsonV>, name: Seq<char>, kind: NameKind) -> Option<Option<Seq<char>>> {
    match resolver {
        None => Some(None),
        Some(map) => match get_member(map, section_name(kind)) {
            None => Some(None),
            Some(JsonV::Object(ms)) => match get_member(JsonV::Object(ms), name) {
                None => Some(None),
                Some(JsonV::Str(v)) => Some(Some(v)),
                Some(_) => None,
            },
            Some(_) => None,
        },
    }
}

/// The SQL of a property reference: its mapped fragment, or the identifier quoted as
/// PostgreSQL needs.
pub open spec fn property_sql(o: SqlOpts, p: Seq<char>) -> Option<Seq<char>> {
    match resolved(o.resolver, p, NameKind::Property) {
        None => None,
        Some(Some(f)) => match sql_fragment_of(f) {
            Some((t, _)) => Some(t),
            None => None,
        },
        Some(None) => Some(
            if ident_left_bare(p) {
                p
            } else {
                dquoted(p)
            },
        ),
    }
}

/// The SQL name of a function: its mapped name or its own, as sqlparser reads it; `None`
/// where that is no identifier.
pub open spec fn function_sql(o: SqlOpts, name: Seq<char>) -> Option<Seq<char>> {
    match resolved(o.resolver, name, NameKind::Function) {
        None => None,
        Some(r) => {
            let n = match r {
                Some(f) => f,
                None => name,
            };
            match sql_fragment_of(n) {
                Some((t, true)) => Some(t),
                _ => None,
            }
        },
    }
}

/// A call of function `name` on the SQL texts `args`.
pub open spec fn call_sql(o: SqlOpts, name: Seq<char>, args: Seq<Seq<char>>) -> Option<Seq<char>> {
    match function_sql(o, name) {
        Some(f) => Some(f + "("@ + join(args, ", "@) + ")"@),
        None => None,
    }
}

/// A timestamp side of a temporal expression: a property, or a string cast to a timestamp.
pub open spec fn ts_sql(o: SqlOpts, e: ExprV) -> Option<Seq<char>> {
    match e {
        ExprV::Property { property } => property_sql(o, property),
        ExprV::Literal(v) => Some("CAST("@ + sql_string(v) + " AS TIMESTAMP WITH TIME ZONE)"@),
        _ => None,
    }
}

/// A date: a property, or a string cast to a date.
pub open spec fn date_sql(o: SqlOpts, e: ExprV) -> Option<Seq<char>> {
    match e {
        ExprV::Property { property } => property_sql(o, property),
        ExprV::Literal(v) => Some("CAST("@ + sql_string(v) + " AS DATE)"@),
        _ => None,
    }
}

/// The start and end of a temporal argument in SQL: an interval's two ends, or a property,
/// date or timestamp as both.
pub open spec fn t_ends(o: SqlOpts, e: ExprV) -> Option<(Seq<char>, Seq<char>)> {
    match e {
        ExprV::Interval { interval } => if interval.len() == 2 {
            match (ts_sql(o, interval[0]), ts_sql(o, interval[1])) {
                (Some(a), Some(b)) => Some((a, b)),
                _ => None,
            }
        } else {
            None
        },
        ExprV::Property { property } => match property_sql(o, property) {
            Some(a) => Some((a, a)),
            None => None,
        },
        ExprV::Date { date } => match date_sql(o, *date) {
            Some(a) => Some((a, a)),
            None => None,
        },
        ExprV::Timestamp { timestamp } => match ts_sql(o, *timestamp) {
            Some(a) => Some((a, a)),
            None => None,
        },
        _ => None,
    }
}

/// The parts of a conjunction in parentheses.
pub open spec fn nested_and(parts: Seq<Seq<char>>) -> Seq<char> {
    "("@ + join(parts, " AND "@) + ")"@
}

/// `a op b`.
pub open spec fn bin(a: Seq<char>, op: Seq<char>, b: Seq<char>) -> Seq<char> {
    a + " "@ + op + " "@ + b
}

/// The SQL of a temporal operator from the ends `(ls, le)` and `(rs, re)` of its sides, as the
/// relations between intervals define it.
pub open spec fn temporal_sql(op: Seq<char>, ls: Seq<char>, le: Seq<char>, rs: Seq<char>, re: Seq<char>) -> Option<Seq<char>> {
    if op == "t_before"@ {
        Some(bin(le, "<"@, rs))
    } else if op == "t_after"@ {
        Some(bin(re, "<"@, ls))
    } else if op == "t_meets"@ {
        Some(bin(le, "="@, rs))
    } else if op == "t_metby"@ {
        Some(bin(re, "="@, ls))
    } else if op == "t_overlaps"@ {
        Some(nested_and(seq![bin(ls, "<"@, re), bin(rs, "<"@, le), bin(le, "<"@, re)]))
    } else if op == "t_overlappedby"@ {
        Some(nested_and(seq![bin(rs, "<"@, le), bin(ls, "<"@, re), bin(re, "<"@, le)]))
    } else if op == "t_starts"@ {
        Some(nested_and(seq![bin(ls, "="@, rs), bin(le, "<"@, re)]))
    } else if op == "t_startedby"@ {
        Some(nested_and(seq![bin(rs, "="@, ls), bin(re, "<"@, le)]))
    } else if op == "t_during"@ {
        Some(nested_and(seq![bin(ls, ">"@, rs), bin(le, "<"@, re)]))
    } else if op == "t_contains"@ {
        Some(nested_and(seq![bin(rs, ">"@, ls), bin(re, "<"@, le)]))
    } else if op == "t_finishes"@ {
        Some(nested_and(seq![bin(le, "="@, re), bin(ls, ">"@, rs)]))
    } else if op == "t_finishedby"@ {
        Some(nested_and(seq![bin(re, "="@, le), bin(rs, ">"@, ls)]))
    } else if op == "t_equals"@ {
        Some(nested_and(seq![bin(ls, "="@, rs), bin(le, "="@, re)]))
    } else if op == "t_disjoint"@ {
        Some("NOT "@ + nested_and(seq![bin(ls, "<="@, re), bin(le, ">="@, rs)]))
    } else if op == "t_intersects"@ || op == "anyinteracts"@ {
        Some(nested_and(seq![bin(ls, "<="@, re), bin(le, ">="@, rs)]))
    } else {
        None
    }
}

/// The SQL binary operator that an operator name stands for, if any.
pub open spec fn sql_binop(op: Seq<char>) -> Option<Seq<char>> {
    if op == "="@ || op == "a_equals"@ || op == "eq"@ {
        Some("="@)
    } else if op == "<>"@ || op == "!="@ || op == "ne"@ {
        Some("<>"@)
    } else if op == ">"@ || op == "gt"@ {
        Some(">"@)
    } else if op == ">="@ || op == "ge"@ || op == "gte"@ {
        Some(">="@)
    } else if op == "<"@ || op == "lt"@ {
        Some("<"@)
    } else if op == "<="@ || op == "le"@ || op == "lte"@ {
        Some("<="@)
    } else if op == "+"@ || op == "-"@ || op == "*"@ || op == "/"@ || op == "%"@ {
        Some(op)
    } else {
        None
    }
}

/// The SQL function that a spatial operator name stands for, if any.
pub open spec fn spatial_function(op: Seq<char>) -> Option<Seq<char>> {
    if op == "s_intersects"@ || op == "st_intersects"@ || op == "intersects"@ {
        Some("st_intersects"@)
    } else if op == "s_equals"@ || op == "st_equals"@ {
        Some("st_equals"@)
    } else if op == "s_within"@ || op == "st_within"@ {
        Some("st_within"@)
    } else if op == "s_contains"@ || op == "st_contains"@ {
        Some("st_contains"@)
    } else if op == "s_crosses"@ || op == "st_crosses"@ {
        Some("st_crosses"@)
    } else if op == "s_overlaps"@ || op == "st_overlaps"@ {
        Some("st_overlaps"@)
    } else if op == "s_touches"@ || op == "st_touches"@ {
        Some("st_touches"@)
    } else if op == "s_disjoint"@ || op == "st_disjoint"@ {
        Some("st_disjoint"@)
    } else {
        None
    }
}

/// Whether an expression is an `and` or `or`, in any case.
pub open spec fn is_junction(e: ExprV) -> bool {
    e is Operation && (lower_ascii(e->Operation_op) == "and"@ || lower_ascii(e->Operation_op)
        == "or"@)
}

/// The SQL texts of the children of an `and` or `or`: a child that is itself an `and` or `or`
/// in parentheses, so that the grouping stays.
pub open spec fn grouped(args: Seq<ExprV>, a: Seq<Seq<char>>) -> Seq<Seq<char>> {
    Seq::new(
        a.len(),
        |i: int|
            if i < args.len() && is_junction(args[i]) {
                "("@ + a[i] + ")"@
            } else {
                a[i]
            },
    )
}

/// The SQL of an operation whose arguments have the SQL texts `a`.
pub open spec fn op_sql(o: SqlOpts, op: Seq<char>, args: Seq<ExprV>, a: Seq<Seq<char>>) -> Option<Seq<char>> {
    let n = a.len();
    if op == "isnull"@ {
        if n == 1 { Some(a[0] + " IS NULL"@) } else { None }
    } else if op == "not"@ {
        if n == 1 { Some("NOT "@ + a[0]) } else { None }
    } else if op == "between"@ {
        if n == 3 { Some(a[0] + " BETWEEN "@ + a[1] + " AND "@ + a[2]) } else { None }
    } else if op == "in"@ {
        if n == 2 { Some(a[0] + " = ANY("@ + a[1] + ")"@) } else { None }
    } else if op == "like"@ {
        if n == 2 { Some(bin(a[0], "LIKE"@, a[1])) } else { None }
    } else if op == "accenti"@ {
        call_sql(o, "strip_accents"@, a)
    } else if op == "casei"@ {
        call_sql(o, "lower"@, a)
    } else if op == "and"@ {
        if n >= 1 { Some(join(grouped(args, a), " AND "@)) } else { None }
    } else if op == "or"@ {
        if n >= 1 { Some(join(grouped(args, a), " OR "@)) } else { None }
    } else if sql_binop(op) is Some {
        if n == 2 { Some(bin(a[0], sql_binop(op)->0, a[1])) } else { None }
    } else if op == "^"@ {
        call_sql(o, "power"@, a)
    } else if spatial_function(op) is Some {
        call_sql(o, spatial_function(op)->0, a)
    } else if op == "a_contains"@ || op == "a_containedby"@ || op == "a_overlaps"@ {
        if n != 2 {
            None
        } else if o.duck {
            if op == "a_contains"@ {
                call_sql(o, "list_has_all"@, seq![a[0], a[1]])
            } else if op == "a_containedby"@ {
                call_sql(o, "list_has_all"@, seq![a[1], a[0]])
            } else {
                call_sql(o, "list_has_any"@, seq![a[0], a[1]])
            }
        } else {
            Some(bin(a[0], if op == "a_contains"@ { "@>"@ } else if op == "a_containedby"@ { "<@"@ } else { "&&"@ }, a[1]))
        }
    } else if temporal_sql(op, seq![], seq![], seq![], seq![]) is Some {
        if args.len() != 2 {
            None
        } else {
            match (t_ends(o, args[0]), t_ends(o, args[1])) {
                (Some((ls, le)), Some((rs, re))) => temporal_sql(op, ls, le, rs, re),
                _ => None,
            }
        }
    } else {
        call_sql(o, op, a)
    }
}

/// The SQL texts of a sequence of expressions, where each has one.
pub open spec fn sqls_of(o: SqlOpts, es: Seq<ExprV>) -> Option<Seq<Seq<char>>>
    decreases es,
{
    if es.len() == 0 {
        Some(seq![])
    } else {
        match (sqls_of(o, es.subrange(0, es.len() - 1)), sql_of(o, es[es.len() - 1])) {
            (Some(front), Some(t)) => Some(front.push(t)),
            _ => None,
        }
    }
}

/// The SQL of an expression; `None` where it has none (a wrong number of arguments, a
/// mapping that is not one of strings, a fragment or name that does not parse).
pub open spec fn sql_of(o: SqlOpts, e: ExprV) -> Option<Seq<char>>
    decreases e,
{
    match e {
        ExprV::Bool(b) => Some(if b { "true"@ } else { "false"@ }),
        ExprV::Float(n) => Some(number_text(n)),
        ExprV::Literal(v) => Some(sql_string(v)),
        ExprV::Null => Some("NULL"@),
        ExprV::Date { date } => date_sql(o, *date),
        ExprV::Timestamp { timestamp } => ts_sql(o, *timestamp),
        ExprV::Interval { interval } => if interval.len() == 2 {
            match (ts_sql(o, interval[0]), ts_sql(o, interval[1])) {
                (Some(a), Some(b)) => Some("ARRAY["@ + a + ", "@ + b + "]"@),
                _ => None,
            }
        } else {
            None
        },
        ExprV::Geometry(g) => match g {
            GeometryV::Wkt(s) => call_sql(o, "st_geomfromtext"@, seq![sql_string(s)]),
            GeometryV::GeoJSON(j) => call_sql(
                o,
                "st_geomfromgeojson"@,
                seq![sql_string(crate::jsontext::json_text(j))],
            ),
        },
        ExprV::BBox { bbox } => match sqls_of(o, bbox) {
            Some(a) => call_sql(o, "st_makeenvelope"@, a),
            None => None,
        },
        ExprV::Array(v) => match sqls_of(o, v) {
            Some(a) => Some("ARRAY["@ + join(a, ", "@) + "]"@),
            None => None,
        },
        ExprV::Property { property } => property_sql(o, property),
        ExprV::Operation { op, args } => match sqls_of(o, args) {
            Some(a) => op_sql(o, lower_ascii(op), args, a),
            None => None,
        },
    }
}

/// The views of a vector of texts.
pub open spec fn views(v: Seq<Vec<char>>) -> Seq<Seq<char>> {
    v.map_values(|t: Vec<char>| t@)
}

/// Writes a SQL string literal.
pub fn sql_string_exec(s: &str) -> (r: Vec<char>)
    ensures
        r@ == sql_string(s@),
{
    let cs = chars_of(s);
    let mut body: Vec<char> = Vec::new();
    let mut i: usize = 0;
    while i < cs.len()
        invariant
            i <= cs.len(),
            body@ == doubled_single(cs@.subrange(0, i as int)),
        decreases cs.len() - i,
    {
        if cs[i] == '\'' {
            body.push('\'');
        }
        body.push(cs[i]);
        proof {
            let sub = cs@.subrange(0, i + 1);
            assert(sub.drop_last() =~= cs@.subrange(0, i as int));
        }
        i = i + 1;
        assert(body@ =~= doubled_single(cs@.subrange(0, i as int)));
    }
    assert(cs@.subrange(0, cs.len() as int) =~= cs@);
    let mut out = chars_of("'");
    push_chars(&mut out, &body);
    push_str(&mut out, "'");
    out
}

impl ToSqlOptions {
    /// What the name mapping makes of a name.
    pub fn resolve_name(&self, name: &str, kind: NameKind) -> (r: Result<Option<String>, Error>)
        ensures
            r matches Ok(Some(f)) ==> resolved(self.spec().resolver, name@, kind) == Some(Some(f@)),
            r matches Ok(None) ==> resolved(self.spec().resolver, name@, kind) == Some(
                None::<Seq<char>>,
            ),
            r is Err ==> resolved(self.spec().resolver, name@, kind) is None,
            r matches Err(e) ==> e is OperationError,
    {
        let map = match &self.resolver {
            None => return Ok(None),
            Some(m) => m,
        };
        let key = match kind {
            NameKind::Function => "functions",
            NameKind::Property => "properties",
        };
        match crate::decode::member_of(map, key) {
            None => Ok(None),
            Some(section) => match section {
                Json::Object(_) => match crate::decode::member_of(section, name) {
                    None => Ok(None),
                    Some(Json::Str(v)) => Ok(Some(v.clone())),
                    Some(_) => Err(Error::OperationError),
                },
                _ => Err(Error::OperationError),
            },
        }
    }
}

/// The errors of the SQL emitter: a name mapping or fragment it cannot use, or an operator
/// with the wrong number of arguments.
pub open spec fn sql_error(e: Error) -> bool {
    e is OperationError || e is InvalidNumberOfArguments
}

/// The SQL of a property reference.
pub fn property_exec(o: &ToSqlOptions, p: &str) -> (r: Result<Vec<char>, Error>)
    ensures
        r matches Err(e) ==> sql_error(e),
        r matches Ok(t) ==> property_sql(o.spec(), p@) == Some(t@),
        r is Err ==> property_sql(o.spec(), p@) is None,
{
    match o.resolve_name(p, NameKind::Property)? {
        Some(f) => match parse_sql_fragment(f.as_str()) {
            Some((t, _)) => Ok(chars_of(t.as_str())),
            None => Err(Error::OperationError),
        },
        None => {
            let q = quote_identifier(p);
            Ok(chars_of(q.as_str()))
        },
    }
}

/// A call of the function `name` on SQL texts.
pub fn call_exec(o: &ToSqlOptions, name: &str, args: &Vec<Vec<char>>) -> (r: Result<Vec<char>, Error>)
    ensures
        r matches Err(e) ==> sql_error(e),
        r matches Ok(t) ==> call_sql(o.spec(), name@, views(args@)) == Some(t@),
        r is Err ==> call_sql(o.spec(), name@, views(args@)) is None,
{
    let n = match o.resolve_name(name, NameKind::Function)? {
        Some(f) => f,
        None => name.to_owned(),
    };
    let f = match parse_sql_fragment(n.as_str()) {
        Some((t, true)) => t,
        _ => return Err(Error::OperationError),
    };
    let mut out = chars_of(f.as_str());
    push_str(&mut out, "(");
    let j = join_chars(args, ", ");
    push_chars(&mut out, &j);
    push_str(&mut out, ")");
    Ok(out)
}

/// A timestamp side: a property, or a string cast to a timestamp.
fn ts_exec(o: &ToSqlOptions, e: &Expr) -> (r: Result<Vec<char>, Error>)
    ensures
        r matches Err(e) ==> sql_error(e),
        r matches Ok(t) ==> ts_sql(o.spec(), e@) == Some(t@),
        r is Err ==> ts_sql(o.spec(), e@) is None,
{
    match e {
        Expr::Property { property } => property_exec(o, property.as_str()),
        Expr::Literal(v) => {
            let mut out = chars_of("CAST(");
            push_chars(&mut out, &sql_string_exec(v.as_str()));
            push_str(&mut out, " AS TIMESTAMP WITH TIME ZONE)");
            Ok(out)
        },
        _ => Err(Error::OperationError),
    }
}

/// A date: a property, or a string cast to a date.
fn date_exec(o: &ToSqlOptions, e: &Expr) -> (r: Result<Vec<char>, Error>)
    ensures
        r matches Err(e) ==> sql_error(e),
        r matches Ok(t) ==> date_sql(o.spec(), e@) == Some(t@),
        r is Err ==> date_sql(o.spec(), e@) is None,
{
    match e {
        Expr::Property { property } => property_exec(o, property.as_str()),
        Expr::Literal(v) => {
            let mut out = chars_of("CAST(");
            push_chars(&mut out, &sql_string_exec(v.as_str()));
            push_str(&mut out, " AS DATE)");
            Ok(out)
        },
        _ => Err(Error::OperationError),
    }
}

/// The start and end of a temporal argument in SQL.
fn t_ends_exec(o: &ToSqlOptions, e: &Expr) -> (r: Result<(Vec<char>, Vec<char>), Error>)
    ensures
        r matches Err(e) ==> sql_error(e),
        r matches Ok((a, b)) ==> t_ends(o.spec(), e@) == Some((a@, b@)),
        r is Err ==> t_ends(o.spec(), e@) is None,
{
    match e {
        Expr::Interval { interval } => {
            proof {
                lemma_expr_views(interval@);
            }
            if interval.len() != 2 {
                return Err(Error::InvalidNumberOfArguments {
                    name: "interval".to_owned(),
                    actual: interval.len(),
                    expected: 2,
                });
            }
            let a = ts_exec(o, &interval[0])?;
            let b = ts_exec(o, &interval[1])?;
            Ok((a, b))
        },
        Expr::Property { property } => {
            let a = property_exec(o, property.as_str())?;
            let b = property_exec(o, property.as_str())?;
            Ok((a, b))
        },
        Expr::Date { date } => {
            let a = date_exec(o, date)?;
            let b = date_exec(o, date)?;
            Ok((a, b))
        },
        Expr::Timestamp { timestamp } => {
            let a = ts_exec(o, timestamp)?;
            let b = ts_exec(o, timestamp)?;
            Ok((a, b))
        },
        _ => Err(Error::OperationError),
    }
}

/// `a op b`.
fn bin_exec(a: &Vec<char>, op: &str, b: &Vec<char>) -> (r: Vec<char>)
    ensures
        r@ == bin(a@, op@, b@),
{
    let mut out: Vec<char> = Vec::new();
    push_chars(&mut out, a);
    push_str(&mut out, " ");
    push_str(&mut out, op);
    push_str(&mut out, " ");
    push_chars(&mut out, b);
    assert(out@ =~= bin(a@, op@, b@));
    out
}

/// The parts of a conjunction in parentheses.
fn nested_and_exec(parts: &Vec<Vec<char>>) -> (r: Vec<char>)
    ensures
        r@ == nested_and(views(parts@)),
{
    let mut out = chars_of("(");
    push_chars(&mut out, &join_chars(parts, " AND "));
    push_str(&mut out, ")");
    out
}

/// The SQL of a temporal operator from the ends of its sides.
fn temporal_exec(op: &str, ls: &Vec<char>, le: &Vec<char>, rs: &Vec<char>, re: &Vec<char>) -> (r: Option<Vec<char>>)
    ensures
        r matches Some(t) ==> temporal_sql(op@, ls@, le@, rs@, re@) == Some(t@),
        r is None ==> temporal_sql(op@, ls@, le@, rs@, re@) is None,
{
    let three = |a: Vec<char>, b: Vec<char>, c: Vec<char>| -> (r: Vec<char>)
        ensures
            r@ == nested_and(seq![a@, b@, c@]),
        {
            let v = vec![a, b, c];
            assert(views(v@) =~= seq![v@[0]@, v@[1]@, v@[2]@]);
            nested_and_exec(&v)
        };
    let two = |a: Vec<char>, b: Vec<char>| -> (r: Vec<char>)
        ensures
            r@ == nested_and(seq![a@, b@]),
        {
            let v = vec![a, b];
            assert(views(v@) =~= seq![v@[0]@, v@[1]@]);
            nested_and_exec(&v)
        };
    if str_is(op, "t_before") {
        Some(bin_exec(le, "<", rs))
    } else if str_is(op, "t_after") {
        Some(bin_exec(re, "<", ls))
    } else if str_is(op, "t_meets") {
        Some(bin_exec(le, "=", rs))
    } else if str_is(op, "t_metby") {
        Some(bin_exec(re, "=", ls))
    } else if str_is(op, "t_overlaps") {
        Some(three(bin_exec(ls, "<", re), bin_exec(rs, "<", le), bin_exec(le, "<", re)))
    } else if str_is(op, "t_overlappedby") {
        Some(three(bin_exec(rs, "<", le), bin_exec(ls, "<", re), bin_exec(re, "<", le)))
    } else if str_is(op, "t_starts") {
        Some(two(bin_exec(ls, "=", rs), bin_exec(le, "<", re)))
    } else if str_is(op, "t_startedby") {
        Some(two(bin_exec(rs, "=", ls), bin_exec(re, "<", le)))
    } else if str_is(op, "t_during") {
        Some(two(bin_exec(ls, ">", rs), bin_exec(le, "<", re)))
    } else if str_is(op, "t_contains") {
        Some(two(bin_exec(rs, ">", ls), bin_exec(re, "<", le)))
    } else if str_is(op, "t_finishes") {
        Some(two(bin_exec(le, "=", re), bin_exec(ls, ">", rs)))
    } else if str_is(op, "t_finishedby") {
        Some(two(bin_exec(re, "=", le), bin_exec(rs, ">", ls)))
    } else if str_is(op, "t_equals") {
        Some(two(bin_exec(ls, "=", rs), bin_exec(le, "=", re)))
    } else if str_is(op, "t_disjoint") {
        let mut out = chars_of("NOT ");
        push_chars(&mut out, &two(bin_exec(ls, "<=", re), bin_exec(le, ">=", rs)));
        Some(out)
    } else if str_is(op, "t_intersects") || str_is(op, "anyinteracts") {
        Some(two(bin_exec(ls, "<=", re), bin_exec(le, ">=", rs)))
    } else {
        None
    }
}

/// The SQL binary operator that an operator name stands for.
fn sql_binop_exec(op: &str) -> (r: Option<&'static str>)
    ensures
        r matches Some(b) ==> sql_binop(op@) == Some(b@),
        r is None ==> sql_binop(op@) is None,
{
    if str_is(op, "=") || str_is(op, "a_equals") || str_is(op, "eq") {
        Some("=")
    } else if str_is(op, "<>") || str_is(op, "!=") || str_is(op, "ne") {
        Some("<>")
    } else if str_is(op, ">") || str_is(op, "gt") {
        Some(">")
    } else if str_is(op, ">=") || str_is(op, "ge") || str_is(op, "gte") {
        Some(">=")
    } else if str_is(op, "<") || str_is(op, "lt") {
        Some("<")
    } else if str_is(op, "<=") || str_is(op, "le") || str_is(op, "lte") {
        Some("<=")
    } else if str_is(op, "+") {
        Some("+")
    } else if str_is(op, "-") {
        Some("-")
    } else if str_is(op, "*") {
        Some("*")
    } else if str_is(op, "/") {
        Some("/")
    } else if str_is(op, "%") {
        Some("%")
    } else {
        None
    }
}

/// The SQL function that a spatial operator name stands for.
fn spatial_function_exec(op: &str) -> (r: Option<&'static str>)
    ensures
        r matches Some(f) ==> spatial_function(op@) == Some(f@),
        r is None ==> spatial_function(op@) is None,
{
    if str_is(op, "s_intersects") || str_is(op, "st_intersects") || str_is(op, "intersects") {
        Some("st_intersects")
    } else if str_is(op, "s_equals") || str_is(op, "st_equals") {
        Some("st_equals")
    } else if str_is(op, "s_within") || str_is(op, "st_within") {
        Some("st_within")
    } else if str_is(op, "s_contains") || str_is(op, "st_contains") {
        Some("st_contains")
    } else if str_is(op, "s_crosses") || str_is(op, "st_crosses") {
        Some("st_crosses")
    } else if str_is(op, "s_overlaps") || str_is(op, "st_overlaps") {
        Some("st_overlaps")
    } else if str_is(op, "s_touches") || str_is(op, "st_touches") {
        Some("st_touches")
    } else if str_is(op, "s_disjoint") || str_is(op, "st_disjoint") {
        Some("st_disjoint")
    } else {
        None
    }
}

/// The error for a fixed-arity SQL operator with the wrong number of arguments.
fn sql_arity(op: &str, actual: usize, expected: usize) -> (e: Error)
    ensures
        e is InvalidNumberOfArguments,
{
    Error::InvalidNumberOfArguments { name: op.to_owned(), actual, expected }
}

/// Puts the SQL of `and` and `or` children in parentheses.
fn group_exec(args: &Vec<Expr>, a: &Vec<Vec<char>>) -> (r: Vec<Vec<char>>)
    requires
        a.len() == args.len(),
    ensures
        views(r@) == grouped(expr_views(args@), views(a@)),
{
    proof {
        lemma_expr_views(args@);
    }
    let mut out: Vec<Vec<char>> = Vec::new();
    let mut i: usize = 0;
    while i < a.len()
        invariant
            i <= a.len(),
            a.len() == args.len(),
            expr_views(args@).len() == args.len(),
            forall|j: int| 0 <= j < args.len() ==> #[trigger] expr_views(args@)[j] == args@[j]@,
            views(out@) == grouped(expr_views(args@), views(a@)).subrange(0, i as int),
        decreases a.len() - i,
    {
        let junction = match &args[i] {
            Expr::Operation { op, .. } => {
                let l = lower_ascii_exec(op.as_str());
                str_is(l.as_str(), "and") || str_is(l.as_str(), "or")
            },
            _ => false,
        };
        assert(junction == is_junction(expr_views(args@)[i as int]));
        let mut t: Vec<char> = Vec::new();
        if junction {
            t.push('(');
            push_chars(&mut t, &a[i]);
            t.push(')');
            proof {
                reveal_strlit("(");
                reveal_strlit(")");
            }
            assert(t@ =~= "("@ + a@[i as int]@ + ")"@);
        } else {
            push_chars(&mut t, &a[i]);
            assert(t@ =~= a@[i as int]@);
        }
        let ghost before = out@;
        out.push(t);
        assert(views(a@)[i as int] == a@[i as int]@);
        assert(grouped(expr_views(args@), views(a@))[i as int] == t@);
        assert(views(out@) =~= views(before).push(t@));
        assert(views(out@) =~= grouped(expr_views(args@), views(a@)).subrange(0, i + 1));
        i = i + 1;
    }
    assert(grouped(expr_views(args@), views(a@)).subrange(0, a.len() as int) =~= grouped(
        expr_views(args@),
        views(a@),
    ));
    out
}

/// The SQL of an operation whose arguments have the SQL texts `a`.
fn op_sql_exec(o: &ToSqlOptions, op: &str, args: &Vec<Expr>, a: &Vec<Vec<char>>) -> (r: Result<Vec<char>, Error>)
    requires
        a.len() == args.len(),
    ensures
        r matches Err(e) ==> sql_error(e),
        r matches Ok(t) ==> op_sql(o.spec(), op@, expr_views(args@), views(a@)) == Some(t@),
        r is Err ==> op_sql(o.spec(), op@, expr_views(args@), views(a@)) is None,
{
    proof {
        lemma_expr_views(args@);
    }
    let ghost av = views(a@);
    let n = a.len();
    if str_is(op, "isnull") {
        if n != 1 {
            return Err(sql_arity(op, n, 1));
        }
        let mut out: Vec<char> = Vec::new();
        push_chars(&mut out, &a[0]);
        push_str(&mut out, " IS NULL");
        return Ok(out);
    }
    if str_is(op, "not") {
        if n != 1 {
            return Err(sql_arity(op, n, 1));
        }
        let mut out = chars_of("NOT ");
        push_chars(&mut out, &a[0]);
        return Ok(out);
    }
    if str_is(op, "between") {
        if n != 3 {
            return Err(sql_arity(op, n, 3));
        }
        let mut out: Vec<char> = Vec::new();
        push_chars(&mut out, &a[0]);
        push_str(&mut out, " BETWEEN ");
        push_chars(&mut out, &a[1]);
        push_str(&mut out, " AND ");
        push_chars(&mut out, &a[2]);
        return Ok(out);
    }
    if str_is(op, "in") {
        if n != 2 {
            return Err(sql_arity(op, n, 2));
        }
        let mut out: Vec<char> = Vec::new();
        push_chars(&mut out, &a[0]);
        push_str(&mut out, " = ANY(");
        push_chars(&mut out, &a[1]);
        push_str(&mut out, ")");
        return Ok(out);
    }
    if str_is(op, "like") {
        if n != 2 {
            return Err(sql_arity(op, n, 2));
        }
        return Ok(bin_exec(&a[0], "LIKE", &a[1]));
    }
    if str_is(op, "accenti") {
        return call_exec(o, "strip_accents", a);
    }
    if str_is(op, "casei") {
        return call_exec(o, "lower", a);
    }
    if str_is(op, "and") || str_is(op, "or") {
        if n == 0 {
            return Err(sql_arity(op, n, 2));
        }
        let sep = if str_is(op, "and") {
            " AND "
        } else {
            " OR "
        };
        let g = group_exec(args, a);
        return Ok(join_chars(&g, sep));
    }
    if let Some(b) = sql_binop_exec(op) {
        if n != 2 {
            return Err(sql_arity(op, n, 2));
        }
        return Ok(bin_exec(&a[0], b, &a[1]));
    }
    if str_is(op, "^") {
        return call_exec(o, "power", a);
    }
    if let Some(f) = spatial_function_exec(op) {
        return call_exec(o, f, a);
    }
    if str_is(op, "a_contains") || str_is(op, "a_containedby") || str_is(op, "a_overlaps") {
        if n != 2 {
            return Err(sql_arity(op, n, 2));
        }
        if o.dialect == Dialect::DuckDb {
            let (name, first, second) = if str_is(op, "a_contains") {
                ("list_has_all", 0usize, 1usize)
            } else if str_is(op, "a_containedby") {
                ("list_has_all", 1usize, 0usize)
            } else {
                ("list_has_any", 0usize, 1usize)
            };
            let mut pair: Vec<Vec<char>> = Vec::new();
            let mut x: Vec<char> = Vec::new();
            push_chars(&mut x, &a[first]);
            let mut y: Vec<char> = Vec::new();
            push_chars(&mut y, &a[second]);
            pair.push(x);
            pair.push(y);
            assert(views(pair@) =~= seq![av[first as int], av[second as int]]);
            return call_exec(o, name, &pair);
        }
        let sym = if str_is(op, "a_contains") {
            "@>"
        } else if str_is(op, "a_containedby") {
            "<@"
        } else {
            "&&"
        };
        return Ok(bin_exec(&a[0], sym, &a[1]));
    }
    let empty: Vec<char> = Vec::new();
    if temporal_exec(op, &empty, &empty, &empty, &empty).is_some() {
        if args.len() != 2 {
            return Err(sql_arity(op, args.len(), 2));
        }
        let (ls, le) = t_ends_exec(o, &args[0])?;
        let (rs, re) = t_ends_exec(o, &args[1])?;
        return match temporal_exec(op, &ls, &le, &rs, &re) {
            Some(t) => Ok(t),
            None => Err(Error::OperationError),
        };
    }
    call_exec(o, op, a)
}

impl Expr {
    /// The SQL texts of a sequence of expressions.
    fn sqls(o: &ToSqlOptions, es: &Vec<Expr>) -> (r: Result<Vec<Vec<char>>, Error>)
        ensures
            r matches Err(e) ==> sql_error(e),
            r matches Ok(ts) ==> sqls_of(o.spec(), expr_views(es@)) == Some(views(ts@)),
            r matches Ok(ts) ==> ts.len() == es.len(),
            r is Err ==> sqls_of(o.spec(), expr_views(es@)) is None,
        decreases es@, 0nat,
    {
        let mut out: Vec<Vec<char>> = Vec::new();
        let mut i: usize = 0;
        while i < es.len()
            invariant
                i <= es.len(),
                out.len() == i,
                sqls_of(o.spec(), expr_views(es@.subrange(0, i as int))) == Some(views(out@)),
            decreases es.len() - i,
        {
            proof {
                assert(decreases_to!(es@ => es@[i as int]));
            }
            let r = es[i].sql_chars(o);
            proof {
                let sub = es@.subrange(0, i + 1);
                assert(sub.subrange(0, i as int) =~= es@.subrange(0, i as int));
                assert(sub[i as int] == es@[i as int]);
                lemma_expr_views(sub);
                lemma_expr_views(es@);
                lemma_expr_views(es@.subrange(0, i as int));
                assert(expr_views(sub) =~= expr_views(es@).subrange(0, i + 1));
                assert(expr_views(sub).subrange(0, i as int) =~= expr_views(
                    es@.subrange(0, i as int),
                ));
            }
            let t = match r {
                Ok(t) => t,
                Err(e) => {
                    proof {
                        lemma_sqls_prefix_none(o.spec(), expr_views(es@), i + 1);
                    }
                    return Err(e);
                },
            };
            let ghost before = out@;
            out.push(t);
            proof {
                assert(views(out@) =~= views(before).push(t@));
            }
            i = i + 1;
        }
        proof {
            assert(es@.subrange(0, es.len() as int) =~= es@);
        }
        Ok(out)
    }

    /// The SQL of this expression, as characters.
    pub fn sql_chars(&self, o: &ToSqlOptions) -> (r: Result<Vec<char>, Error>)
        ensures
            r matches Err(e) ==> sql_error(e),
            r matches Ok(t) ==> sql_of(o.spec(), self@) == Some(t@),
            r is Err ==> sql_of(o.spec(), self@) is None,
        decreases *self, 1nat,
    {
        match self {
            Expr::Bool(b) => Ok(chars_of(if *b { "true" } else { "false" })),
            Expr::Float(n) => Ok(n.to_chars()),
            Expr::Literal(v) => Ok(sql_string_exec(v.as_str())),
            Expr::Null => Ok(chars_of("NULL")),
            Expr::Date { date } => date_exec(o, date),
            Expr::Timestamp { timestamp } => ts_exec(o, timestamp),
            Expr::Interval { interval } => {
                proof {
                    lemma_expr_views(interval@);
                }
                if interval.len() != 2 {
                    return Err(sql_arity("interval", interval.len(), 2));
                }
                let a = ts_exec(o, &interval[0])?;
                let b = ts_exec(o, &interval[1])?;
                let mut out = chars_of("ARRAY[");
                push_chars(&mut out, &a);
                push_str(&mut out, ", ");
                push_chars(&mut out, &b);
                push_str(&mut out, "]");
                Ok(out)
            },
            Expr::Geometry(g) => match g {
                Geometry::Wkt(s) => {
                    let v = vec![sql_string_exec(s.as_str())];
                    assert(views(v@) =~= seq![sql_string(s@)]);
                    call_exec(o, "st_geomfromtext", &v)
                },
                Geometry::GeoJSON(j) => {
                    let t = string_of(&j.text_chars());
                    let v = vec![sql_string_exec(t.as_str())];
                    assert(views(v@) =~= seq![sql_string(crate::jsontext::json_text(j@))]);
                    call_exec(o, "st_geomfromgeojson", &v)
                },
            },
            Expr::BBox { bbox } => {
                let a = Self::sqls(o, bbox)?;
                call_exec(o, "st_makeenvelope", &a)
            },
            Expr::Array(v) => {
                let a = Self::sqls(o, v)?;
                let mut out = chars_of("ARRAY[");
                push_chars(&mut out, &join_chars(&a, ", "));
                push_str(&mut out, "]");
                Ok(out)
            },
            Expr::Property { property } => property_exec(o, property.as_str()),
            Expr::Operation { op, args } => {
                let a = Self::sqls(o, args)?;
                let lop = lower_ascii_exec(op.as_str());
                op_sql_exec(o, lop.as_str(), args, &a)
            },
        }
    }

    /// Converts this expression to SQL with the given options.
    pub fn to_sql_with_options(&self, options: &ToSqlOptions) -> (r: Result<String, Error>)
        ensures
            r matches Err(e) ==> sql_error(e),
            r matches Ok(s) ==> sql_of(options.spec(), self@) == Some(s@),
            r is Err ==> sql_of(options.spec(), self@) is None,
    {
        let t = self.sql_chars(options)?;
        Ok(string_of(&t))
    }

    /// Converts this expression to PostgreSQL.
    pub fn to_sql(&self) -> (r: Result<String, Error>)
        ensures
            r matches Err(e) ==> sql_error(e),
            r matches Ok(s) ==> sql_of(SqlOpts { resolver: None, duck: false }, self@) == Some(s@),
            r is Err ==> sql_of(SqlOpts { resolver: None, duck: false }, self@) is None,
    {
        let o = ToSqlOptions::new();
        self.to_sql_with_options(&o)
    }

    /// Converts this expression to DuckDB SQL.
    pub fn to_ducksql(&self) -> (r: Result<String, Error>)
        ensures
            r matches Err(e) ==> sql_error(e),
            r matches Ok(s) ==> sql_of(SqlOpts { resolver: None, duck: true }, self@) == Some(s@),
            r is Err ==> sql_of(SqlOpts { resolver: None, duck: true }, self@) is None,
    {
        let o = ToSqlOptions::new().duckdb();
        self.to_sql_with_options(&o)
    }
}

/// Where some prefix has no SQL, neither has the whole.
pub proof fn lemma_sqls_prefix_none(o: SqlOpts, es: Seq<ExprV>, j: int)
    requires
        0 <= j <= es.len(),
        sqls_of(o, es.subrange(0, j)) is None,
    ensures
        sqls_of(o, es) is None,
    decreases es.len() - j,
{
    if j < es.len() {
        let next = es.subrange(0, j + 1);
        assert(next.subrange(0, j) =~= es.subrange(0, j));
        lemma_sqls_prefix_none(o, es, j + 1);
    } else {
        assert(es.subrange(0, j) =~= es);
    }
}

} // verus!
