use vstd::prelude::*;
use crate::error::Error;
use crate::expr::{Expr, ExprV, expr_view, expr_views};
use crate::geometry::{Geometry, GeometryV};
use crate::json::{Json, JsonV, json_view, json_views, lemma_json_views, lemma_member_views, member_views};
use crate::text::{chars_of, str_is, string_of};

verus! {

broadcast use vstd::std_specs::vec::group_vec_axioms, vstd::seq::group_seq_axioms;

/// The index of the first member named `key`, or `-1`.
pub open spec fn member_index(ms: Seq<(Seq<char>, JsonV)>, key: Seq<char>) -> int
    decreases ms.len(),
{
    if ms.len() == 0 {
        -1
    } else if ms[0].0 == key {
        0
    } else {
        let i = member_index(ms.drop_first(), key);
        if i < 0 {
            -1
        } else {
            i + 1
        }
    }
}

/// `member_index` is `-1` or a valid index whose member has the key.
pub proof fn lemma_member_index(ms: Seq<(Seq<char>, JsonV)>, key: Seq<char>)
    ensures
        -1 <= member_index(ms, key) < ms.len(),
        member_index(ms, key) >= 0 ==> ms[member_index(ms, key)].0 == key,
        member_index(ms, key) == -1 ==> forall|i: int| 0 <= i < ms.len() ==> #[trigger] ms[i].0
            != key,
    decreases ms.len(),
{
    if ms.len() > 0 && ms[0].0 != key {
        lemma_member_index(ms.drop_first(), key);
        if member_index(ms, key) == -1 {
            assert forall|i: int| 0 <= i < ms.len() implies #[trigger] ms[i].0 != key by {
                if i > 0 {
                    assert(ms.drop_first()[i - 1] == ms[i]);
                }
            }
        }
    }
}

/// The value of the member named `key` of an object.
pub open spec fn get_member(j: JsonV, key: Seq<char>) -> Option<JsonV> {
    match j {
        JsonV::Object(ms) => {
            let i = member_index(ms, key);
            if 0 <= i < ms.len() {
                Some(ms[i].1)
            } else {
                None
            }
        },
        _ => None,
    }
}

/// The index of the first `.` in `p`, or `-1`.
pub open spec fn first_dot(p: Seq<char>) -> int
    decreases p.len(),
{
    if p.len() == 0 {
        -1
    } else if p[0] == '.' {
        0
    } else {
        let i = first_dot(p.drop_first());
        if i < 0 {
            -1
        } else {
            i + 1
        }
    }
}

/// `first_dot` is `-1` or the index of the first dot.
pub proof fn lemma_first_dot(p: Seq<char>)
    ensures
        -1 <= first_dot(p) < p.len(),
        first_dot(p) >= 0 ==> p[first_dot(p)] == '.',
        forall|i: int| 0 <= i < p.len() && (first_dot(p) == -1 || i < first_dot(p)) ==> #[trigger] p[i]
            != '.',
    decreases p.len(),
{
    if p.len() > 0 && p[0] != '.' {
        lemma_first_dot(p.drop_first());
        assert forall|i: int| 0 <= i < p.len() && (first_dot(p) == -1 || i < first_dot(p)) implies #[trigger] p[i]
            != '.' by {
            if i > 0 {
                assert(p.drop_first()[i - 1] == p[i]);
            }
        }
    }
}

/// The value at a dotted path (`a.b.c`) of nested objects.
pub open spec fn path_get(j: JsonV, p: Seq<char>) -> Option<JsonV>
    decreases p.len(),
{
    let d = first_dot(p);
    if 0 <= d < p.len() {
        match get_member(j, p.subrange(0, d)) {
            Some(c) => path_get(c, p.subrange(d + 1, p.len() as int)),
            None => None,
        }
    } else {
        get_member(j, p)
    }
}

/// The value that a record gives a property: at its dotted path, or else under `properties`.
pub open spec fn lookup_property(rec: JsonV, p: Seq<char>) -> Option<JsonV> {
    match path_get(rec, p) {
        Some(v) => Some(v),
        None => path_get(rec, "properties."@ + p),
    }
}

/// The expressions of a sequence of cql2-json values, where each is one.
pub open spec fn exprs_of_json(js: Seq<JsonV>) -> Option<Seq<ExprV>>
    decreases js,
{
    if js.len() == 0 {
        Some(seq![])
    } else {
        match (exprs_of_json(js.subrange(0, js.len() - 1)), expr_of_json(js[js.len() - 1])) {
            (Some(front), Some(e)) => Some(front.push(e)),
            _ => None,
        }
    }
}

/// The expression that a cql2-json value describes: `{"op", "args"}` an operation,
/// `{"interval"}`, `{"timestamp"}`, `{"date"}`, `{"property"}` and `{"bbox"}` their
/// constructs, an object with a `"type"` a GeoJSON geometry, an array an array, and a number,
/// string, boolean or `null` that literal.
pub open spec fn expr_of_json(j: JsonV) -> Option<ExprV>
    decreases j,
{
    match j {
        JsonV::Null => Some(ExprV::Null),
        JsonV::Bool(b) => Some(ExprV::Bool(b)),
        JsonV::Number(n) => Some(ExprV::Float(n)),
        JsonV::Str(s) => Some(ExprV::Literal(s)),
        JsonV::Raw(_) => None,
        JsonV::Array(vs) => match exprs_of_json(vs) {
            Some(es) => Some(ExprV::Array(es)),
            None => None,
        },
        JsonV::Object(ms) => {
            let iop = member_index(ms, "op"@);
            let iargs = member_index(ms, "args"@);
            let iint = member_index(ms, "interval"@);
            let its = member_index(ms, "timestamp"@);
            let idate = member_index(ms, "date"@);
            let iprop = member_index(ms, "property"@);
            let ibbox = member_index(ms, "bbox"@);
            let itype = member_index(ms, "type"@);
            if 0 <= iop < ms.len() && 0 <= iargs < ms.len() && ms[iop].1 is Str
                && ms[iargs].1 is Array {
                match exprs_of_json(ms[iargs].1->Array_0) {
                    Some(es) => Some(ExprV::Operation { op: ms[iop].1->Str_0, args: es }),
                    None => None,
                }
            } else if 0 <= iint < ms.len() && ms[iint].1 is Array {
                match exprs_of_json(ms[iint].1->Array_0) {
                    Some(es) => Some(ExprV::Interval { interval: es }),
                    None => None,
                }
            } else if 0 <= its < ms.len() {
                match expr_of_json(ms[its].1) {
                    Some(e) => Some(ExprV::Timestamp { timestamp: Box::new(e) }),
                    None => None,
                }
            } else if 0 <= idate < ms.len() {
                match expr_of_json(ms[idate].1) {
                    Some(e) => Some(ExprV::Date { date: Box::new(e) }),
                    None => None,
                }
            } else if 0 <= iprop < ms.len() && ms[iprop].1 is Str {
                Some(ExprV::Property { property: ms[iprop].1->Str_0 })
            } else if 0 <= ibbox < ms.len() && ms[ibbox].1 is Array {
                match exprs_of_json(ms[ibbox].1->Array_0) {
                    Some(es) => Some(ExprV::BBox { bbox: es }),
                    None => None,
                }
            } else if 0 <= itype < ms.len() && ms[itype].1 is Str {
                Some(ExprV::Geometry(GeometryV::GeoJSON(j)))
            } else {
                None
            }
        },
    }
}

/// The index of the first member named `key`.
pub fn find_member(ms: &Vec<(String, Json)>, key: &str) -> (r: Option<usize>)
    ensures
        r matches Some(i) ==> i < ms.len() && member_index(member_views(ms@), key@) == i,
        r is None ==> member_index(member_views(ms@), key@) == -1,
{
    proof {
        lemma_member_views(ms@);
        lemma_member_index(member_views(ms@), key@);
    }
    let ghost mv = member_views(ms@);
    let mut i: usize = 0;
    while i < ms.len()
        invariant
            i <= ms.len(),
            mv == member_views(ms@),
            mv.len() == ms.len(),
            forall|j: int| 0 <= j < i ==> #[trigger] mv[j].0 != key@,
        decreases ms.len() - i,
    {
        proof {
            lemma_member_views(ms@);
            assert(mv[i as int] == (ms@[i as int].0@, ms@[i as int].1@));
        }
        if str_is(ms[i].0.as_str(), key) {
            proof {
                lemma_first_match(mv, key@, i as int);
            }
            return Some(i);
        }
        i = i + 1;
    }
    proof {
        lemma_first_match(mv, key@, -1);
    }
    None
}

/// Where no member before `i` has the key and member `i` has it (or `i == -1` and none has
/// it), `member_index` is `i`.
pub proof fn lemma_first_match(ms: Seq<(Seq<char>, JsonV)>, key: Seq<char>, i: int)
    requires
        -1 <= i < ms.len(),
        i >= 0 ==> ms[i].0 == key,
        forall|j: int| 0 <= j < ms.len() && (i == -1 || j < i) ==> #[trigger] ms[j].0 != key,
    ensures
        member_index(ms, key) == i,
    decreases ms.len(),
{
    if ms.len() > 0 && i != 0 {
        let rest = ms.drop_first();
        assert forall|j: int| 0 <= j < rest.len() && (i - 1 == -1 || i == -1 || j < i - 1) implies #[trigger] rest[j].0 != key by {
            assert(rest[j] == ms[j + 1]);
        }
        if i == -1 {
            lemma_first_match(rest, key, -1);
        } else {
            assert(rest[i - 1] == ms[i]);
            lemma_first_match(rest, key, i - 1);
        }
    }
}

/// The value of the member named `key` of an object.
pub fn member_of<'a>(j: &'a Json, key: &str) -> (r: Option<&'a Json>)
    ensures
        r matches Some(v) ==> get_member(j@, key@) == Some(v@),
        r is None ==> get_member(j@, key@) is None,
{
    match j {
        Json::Object(ms) => {
            proof {
                lemma_member_views(ms@);
                lemma_member_index(member_views(ms@), key@);
            }
            match find_member(ms, key) {
                Some(i) => Some(&ms[i].1),
                None => None,
            }
        },
        _ => None,
    }
}

/// The value at a dotted path of nested objects.
pub fn get_path<'a>(j: &'a Json, p: &Vec<char>) -> (r: Option<&'a Json>)
    ensures
        r matches Some(v) ==> path_get(j@, p@) == Some(v@),
        r is None ==> path_get(j@, p@) is None,
    decreases p.len(),
{
    proof {
        lemma_first_dot(p@);
    }
    let mut d: usize = 0;
    while d < p.len() && p[d] != '.'
        invariant
            d <= p.len(),
            forall|i: int| 0 <= i < d ==> #[trigger] p@[i] != '.',
        decreases p.len() - d,
    {
        d = d + 1;
    }
    proof {
        lemma_dot_at(p@, d as int);
    }
    if d < p.len() {
        let head = slice_chars(p, 0, d);
        let tail = slice_chars(p, d + 1, p.len());
        let hs = string_of(&head);
        match member_of(j, hs.as_str()) {
            Some(c) => get_path(c, &tail),
            None => None,
        }
    } else {
        let ps = string_of(p);
        member_of(j, ps.as_str())
    }
}

/// Where no dot comes before `d` and `d` is a dot or the end, `first_dot` says so.
pub proof fn lemma_dot_at(p: Seq<char>, d: int)
    requires
        0 <= d <= p.len(),
        forall|i: int| 0 <= i < d ==> #[trigger] p[i] != '.',
        d < p.len() ==> p[d] == '.',
    ensures
        d < p.len() ==> first_dot(p) == d,
        d == p.len() ==> first_dot(p) == -1,
    decreases p.len(),
{
    if p.len() > 0 && d > 0 {
        let rest = p.drop_first();
        assert forall|i: int| 0 <= i < d - 1 implies #[trigger] rest[i] != '.' by {
            assert(rest[i] == p[i + 1]);
        }
        if d < p.len() {
            assert(rest[d - 1] == p[d]);
        }
        lemma_dot_at(rest, d - 1);
    }
}

/// The characters of `p` from `a` to `b`.
pub fn slice_chars(p: &Vec<char>, a: usize, b: usize) -> (r: Vec<char>)
    requires
        a <= b <= p.len(),
    ensures
        r@ == p@.subrange(a as int, b as int),
{
    let mut out: Vec<char> = Vec::new();
    let mut i: usize = a;
    while i < b
        invariant
            a <= i <= b,
            b <= p.len(),
            out@ == p@.subrange(a as int, i as int),
        decreases b - i,
    {
        out.push(p[i]);
        i = i + 1;
        assert(out@ =~= p@.subrange(a as int, i as int));
    }
    out
}

/// The value that a record gives a property: at its dotted path, or else under `properties`.
pub fn lookup<'a>(rec: &'a Json, property: &str) -> (r: Option<&'a Json>)
    ensures
        r matches Some(v) ==> lookup_property(rec@, property@) == Some(v@),
        r is None ==> lookup_property(rec@, property@) is None,
{
    let p = chars_of(property);
    match get_path(rec, &p) {
        Some(v) => Some(v),
        None => {
            let mut q = chars_of("properties.");
            crate::text::push_chars(&mut q, &p);
            get_path(rec, &q)
        },
    }
}

/// The expressions of a sequence of cql2-json values.
pub fn exprs_from_json(js: &Vec<Json>) -> (r: Result<Vec<Expr>, Error>)
    ensures
        r matches Ok(es) ==> exprs_of_json(json_views(js@)) == Some(expr_views(es@)),
        r is Err ==> exprs_of_json(json_views(js@)) is None,
        r matches Err(e) ==> e is InvalidJson,
    decreases js@, 0nat,
{
    proof {
        lemma_json_views(js@);
    }
    let mut out: Vec<Expr> = Vec::new();
    let mut i: usize = 0;
    while i < js.len()
        invariant
            i <= js.len(),
            out.len() == i,
            exprs_of_json(json_views(js@.subrange(0, i as int))) == Some(expr_views(out@)),
        decreases js.len() - i,
    {
        proof {
            assert(decreases_to!(js@ => js@[i as int]));
        }
        let r = from_json(&js[i]);
        proof {
            let sub = js@.subrange(0, i + 1);
            assert(sub.subrange(0, i as int) =~= js@.subrange(0, i as int));
            assert(sub[i as int] == js@[i as int]);
        }
        let e = match r {
            Ok(e) => e,
            Err(err) => {
                proof {
                    lemma_json_views(js@);
                    lemma_json_views(js@.subrange(0, i + 1));
                    assert(json_views(js@.subrange(0, i + 1)) =~= json_views(js@).subrange(
                        0,
                        i + 1,
                    ));
                    lemma_exprs_prefix_none(json_views(js@), i + 1);
                }
                return Err(err);
            },
        };
        let ghost before = out@;
        out.push(e);
        proof {
            let sub = js@.subrange(0, i + 1);
            assert(sub.subrange(0, i as int) =~= js@.subrange(0, i as int));
            assert(sub[i as int] == js@[i as int]);
            assert(sub.len() == i + 1);
            lemma_json_views(js@.subrange(0, i as int));
            let jv = json_views(sub);
            assert(jv == json_views(sub.subrange(0, i as int)).push(json_view(sub[i as int])));
            assert(jv.subrange(0, i as int) =~= json_views(js@.subrange(0, i as int)));
            assert(jv[i as int] == js@[i as int]@);
            assert(out@.subrange(0, i as int) =~= before);
            assert(out@.subrange(0, i as int) =~= before);
            assert(out@[i as int] == e);
            assert(expr_views(out@) == expr_views(out@.subrange(0, i as int)).push(
                expr_view(out@[i as int]),
            ));
        }
        i = i + 1;
    }
    assert(js@.subrange(0, js.len() as int) =~= js@);
    Ok(out)
}

/// Where some prefix has no expressions, neither has the whole.
pub proof fn lemma_exprs_prefix_none(js: Seq<JsonV>, j: int)
    requires
        0 <= j <= js.len(),
        exprs_of_json(js.subrange(0, j)) is None,
    ensures
        exprs_of_json(js) is None,
    decreases js.len() - j,
{
    if j < js.len() {
        let next = js.subrange(0, j + 1);
        assert(next.subrange(0, j) =~= js.subrange(0, j));
        lemma_exprs_prefix_none(js, j + 1);
    } else {
        assert(js.subrange(0, j) =~= js);
    }
}

/// Reads the expression that a cql2-json value describes.
pub fn from_json(j: &Json) -> (r: Result<Expr, Error>)
    ensures
        r matches Ok(e) ==> expr_of_json(j@) == Some(e@),
        r is Err ==> expr_of_json(j@) is None,
        r matches Err(e) ==> e is InvalidJson,
    decreases *j, 1nat,
{
    match j {
        Json::Null => Ok(Expr::Null),
        Json::Bool(b) => Ok(Expr::Bool(*b)),
        Json::Number(n) => Ok(Expr::Float(*n)),
        Json::Str(s) => Ok(Expr::Literal(s.clone())),
        Json::Raw(_) => Err(Error::InvalidJson(String::new())),
        Json::Array(vs) => {
            let es = exprs_from_json(vs)?;
            Ok(Expr::Array(es))
        },
        Json::Object(ms) => {
            proof {
                lemma_member_views(ms@);
            }
            let ghost mv = member_views(ms@);
            let iop = find_member(ms, "op");
            let iargs = find_member(ms, "args");
            if let (Some(a), Some(b)) = (iop, iargs) {
                if let (Json::Str(op), Json::Array(args)) = (&ms[a].1, &ms[b].1) {
                    proof {
                        assert(decreases_to!(ms@ => ms@[b as int]));
                        assert(decreases_to!(ms@[b as int] => ms@[b as int].1));
                        assert(mv[b as int].1 == JsonV::Array(json_views(args@)));
                    }
                    let es = exprs_from_json(args)?;
                    return Ok(Expr::Operation { op: op.clone(), args: es });
                }
            }
            if let Some(k) = find_member(ms, "interval") {
                if let Json::Array(vs) = &ms[k].1 {
                    proof {
                        assert(decreases_to!(ms@ => ms@[k as int]));
                        assert(decreases_to!(ms@[k as int] => ms@[k as int].1));
                    }
                    let es = exprs_from_json(vs)?;
                    return Ok(Expr::Interval { interval: es });
                }
            }
            if let Some(k) = find_member(ms, "timestamp") {
                proof {
                    assert(decreases_to!(ms@ => ms@[k as int]));
                    assert(decreases_to!(ms@[k as int] => ms@[k as int].1));
                }
                let e = from_json(&ms[k].1)?;
                return Ok(Expr::Timestamp { timestamp: Box::new(e) });
            }
            if let Some(k) = find_member(ms, "date") {
                proof {
                    assert(decreases_to!(ms@ => ms@[k as int]));
                    assert(decreases_to!(ms@[k as int] => ms@[k as int].1));
                }
                let e = from_json(&ms[k].1)?;
                return Ok(Expr::Date { date: Box::new(e) });
            }
            if let Some(k) = find_member(ms, "property") {
                if let Json::Str(p) = &ms[k].1 {
                    return Ok(Expr::Property { property: p.clone() });
                }
            }
            if let Some(k) = find_member(ms, "bbox") {
                if let Json::Array(vs) = &ms[k].1 {
                    proof {
                        assert(decreases_to!(ms@ => ms@[k as int]));
                        assert(decreases_to!(ms@[k as int] => ms@[k as int].1));
                    }
                    let es = exprs_from_json(vs)?;
                    return Ok(Expr::BBox { bbox: es });
                }
            }
            if let Some(k) = find_member(ms, "type") {
                if let Json::Str(_) = &ms[k].1 {
                    return Ok(Expr::Geometry(Geometry::GeoJSON(j.copy())));
                }
            }
            Err(Error::InvalidJson(String::new()))
        },
    }
}

} // verus!
