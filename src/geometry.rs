use geo::Relate;
use vstd::prelude::*;
use geozero::ToWkt;
use wkt::TryFromWkt;
use crate::json::{Json, JsonV};
use crate::number::{number_text, Number};
use crate::text::{chars_of, push_chars, push_str, str_is, string_of};

verus! {

/// A geometry literal: WKT text as written, or a GeoJSON geometry object.
#[derive(Debug)]
pub enum Geometry {
    /// A GeoJSON geometry.
    GeoJSON(Json),
    /// A WKT geometry.
    Wkt(String),
}

/// The mathematical form of a geometry literal.
pub enum GeometryV {
    GeoJSON(JsonV),
    Wkt(Seq<char>),
}

impl View for Geometry {
    type V = GeometryV;

    open spec fn view(&self) -> GeometryV {
        match self {
            Geometry::GeoJSON(j) => GeometryV::GeoJSON(j@),
            Geometry::Wkt(s) => GeometryV::Wkt(s@),
        }
    }
}

/// The first element of a JSON array.
pub open spec fn first_of(j: JsonV) -> Option<JsonV> {
    match j {
        JsonV::Array(vs) => if vs.len() > 0 {
            Some(vs[0])
        } else {
            None
        },
        _ => None,
    }
}

/// The length of the coordinate tuple reached by taking the first element `depth` times; `2`
/// where there is none.
pub open spec fn tuple_len(j: JsonV, depth: nat) -> nat
    decreases depth,
{
    if depth == 0 {
        match j {
            JsonV::Array(vs) => vs.len(),
            _ => 2,
        }
    } else {
        match first_of(j) {
            Some(f) => tuple_len(f, (depth - 1) as nat),
            None => 2,
        }
    }
}

/// How many values the coordinate tuples of a GeoJSON geometry have, from its first tuple:
/// the coordinates of a point, the first position of a multipoint or line, the first of the
/// first ring or line of a polygon or multiline, the first of the first ring of the first
/// polygon of a multipolygon, and that of the first member of a collection; `2` where there is
/// no tuple.
pub open spec fn ndims_of(g: JsonV) -> nat
    decreases g,
{
    match g {
        JsonV::Object(ms) => {
            let it = crate::decode::member_index(ms, "type"@);
            let ic = crate::decode::member_index(ms, "coordinates"@);
            let ig = crate::decode::member_index(ms, "geometries"@);
            if !(0 <= it < ms.len()) {
                2
            } else {
                let t = ms[it].1;
                if t == JsonV::Str("GeometryCollection"@) {
                    if 0 <= ig < ms.len() && ms[ig].1 is Array && ms[ig].1->Array_0.len() > 0 {
                        ndims_of(ms[ig].1->Array_0[0])
                    } else {
                        2
                    }
                } else if !(0 <= ic < ms.len()) {
                    2
                } else {
                    let c = ms[ic].1;
                    if t == JsonV::Str("Point"@) {
                        tuple_len(c, 0)
                    } else if t == JsonV::Str("MultiPoint"@) || t == JsonV::Str("LineString"@) {
                        tuple_len(c, 1)
                    } else if t == JsonV::Str("MultiLineString"@) || t == JsonV::Str("Polygon"@) {
                        tuple_len(c, 2)
                    } else if t == JsonV::Str("MultiPolygon"@) {
                        tuple_len(c, 3)
                    } else {
                        2
                    }
                }
            }
        },
        _ => 2,
    }
}

/// The WKT that geozero writes for GeoJSON text, with a `Z` and an `M` value per tuple where
/// `z` and `m` ask for them; `None` where the text is no GeoJSON geometry.
pub uninterp spec fn geojson_wkt(text: Seq<char>, z: bool, m: bool) -> Option<Seq<char>>;

/// Relies on geozero's `GeoJson` reader and `ToWkt::to_wkt_ndim`: the geometry of the GeoJSON
/// text written as WKT with the dimensions asked for.
#[verifier::external_body]
fn wkt_of_geojson(text: &str, z: bool, m: bool) -> (r: Option<String>)
    ensures
        r matches Some(w) ==> geojson_wkt(text@, z, m) == Some(w@),
        r is None ==> geojson_wkt(text@, z, m) is None,
{
    let dims = geozero::CoordDimensions { z, m, t: false, tm: false };
    geozero::geojson::GeoJson(text).to_wkt_ndim(dims).ok()
}

/// The WKT text of a geometry: the text of a WKT geometry, and for a GeoJSON geometry what
/// geozero writes from its JSON text, three values per tuple where its first tuple has three
/// and four where it has four.
pub open spec fn geometry_wkt(g: GeometryV) -> Option<Seq<char>> {
    match g {
        GeometryV::Wkt(s) => Some(s),
        GeometryV::GeoJSON(j) => geojson_wkt(
            crate::jsontext::json_text(j),
            ndims_of(j) == 3 || ndims_of(j) == 4,
            ndims_of(j) == 4,
        ),
    }
}

/// The length of the coordinate tuple reached by taking the first element `depth` times.
fn tuple_len_exec(j: &Json, depth: usize) -> (r: usize)
    ensures
        r == tuple_len(j@, depth as nat),
    decreases depth,
{
    match j {
        Json::Array(vs) => {
            proof {
                crate::json::lemma_json_views(vs@);
            }
            if depth == 0 {
                vs.len()
            } else if vs.len() > 0 {
                tuple_len_exec(&vs[0], depth - 1)
            } else {
                2
            }
        },
        _ => 2,
    }
}

/// How many values the coordinate tuples of a GeoJSON geometry have, from its first tuple.
pub fn geojson_ndims(g: &Json) -> (r: usize)
    ensures
        r == ndims_of(g@),
    decreases *g,
{
    proof {
        reveal_strlit("GeometryCollection");
        reveal_strlit("Point");
    }
    match g {
        Json::Object(ms) => {
            proof {
                crate::json::lemma_member_views(ms@);
            }
            let it = match crate::decode::find_member(ms, "type") {
                Some(i) => i,
                None => return 2,
            };
            let is_type = |name: &str| -> (b: bool)
                ensures
                    b == (ms@[it as int].1@ == JsonV::Str(name@)),
                {
                    match &ms[it].1 {
                        Json::Str(t) => crate::text::str_is(t.as_str(), name),
                        _ => false,
                    }
                };
            if is_type("GeometryCollection") {
                if let Some(ig) = crate::decode::find_member(ms, "geometries") {
                    if let Json::Array(gs) = &ms[ig].1 {
                        proof {
                            crate::json::lemma_json_views(gs@);
                            assert(decreases_to!(ms@ => ms@[ig as int]));
                            assert(decreases_to!(ms@[ig as int] => ms@[ig as int].1));
                        }
                        if gs.len() > 0 {
                            proof {
                                assert(decreases_to!(gs@ => gs@[0]));
                            }
                            return geojson_ndims(&gs[0]);
                        }
                    }
                }
                return 2;
            }
            let ic = match crate::decode::find_member(ms, "coordinates") {
                Some(i) => i,
                None => return 2,
            };
            let c = &ms[ic].1;
            if is_type("Point") {
                tuple_len_exec(c, 0)
            } else if is_type("MultiPoint") || is_type("LineString") {
                tuple_len_exec(c, 1)
            } else if is_type("MultiLineString") || is_type("Polygon") {
                tuple_len_exec(c, 2)
            } else if is_type("MultiPolygon") {
                tuple_len_exec(c, 3)
            } else {
                2
            }
        },
        _ => 2,
    }
}

impl Geometry {
    /// Converts this geometry to Well-Known Text (WKT).
    pub fn to_wkt(&self) -> (r: Result<String, crate::error::Error>)
        ensures
            r matches Ok(s) ==> geometry_wkt(self@) == Some(s@),
            r is Err ==> geometry_wkt(self@) is None,
    {
        match self {
            Geometry::Wkt(s) => Ok(s.clone()),
            Geometry::GeoJSON(j) => {
                let n = geojson_ndims(j);
                let t = string_of(&j.text_chars());
                match wkt_of_geojson(t.as_str(), n == 3 || n == 4, n == 4) {
                    Some(w) => Ok(w),
                    None => Err(crate::error::Error::Coercion(String::new())),
                }
            },
        }
    }

    /// A copy of this geometry.
    pub fn copy(&self) -> (r: Geometry)
        ensures
            r@ == self@,
    {
        match self {
            Geometry::GeoJSON(j) => Geometry::GeoJSON(j.copy()),
            Geometry::Wkt(s) => Geometry::Wkt(s.clone()),
        }
    }
}

/// The eight topological predicates of DE-9IM between two geometries.
#[derive(Clone, Copy, Debug, PartialEq, Eq, Structural)]
pub struct Relations {
    pub equals: bool,
    pub intersects: bool,
    pub disjoint: bool,
    pub touches: bool,
    pub within: bool,
    pub overlaps: bool,
    pub crosses: bool,
    pub contains: bool,
}

/// Whether a character may stand in WKT that geo is handed: the letters of the geometry
/// keywords and dimension tags, digits, `.`, `-`, brackets, commas and white space.
pub open spec fn wkt_char_ok(c: char) -> bool {
    ('0' <= c && c <= '9') || c == '.' || c == '-' || c == ' ' || c == '\t' || c == '\n' || c
        == '\r' || c == ',' || c == '(' || c == ')' || c == 'P' || c == 'O' || c == 'I' || c
        == 'N' || c == 'T' || c == 'L' || c == 'S' || c == 'R' || c == 'G' || c == 'Y' || c == 'M'
        || c == 'U' || c == 'E' || c == 'C' || c == 'Z' || c == 'p' || c == 'o' || c == 'i' || c
        == 'n' || c == 't' || c == 'l' || c == 's' || c == 'r' || c == 'g' || c == 'y' || c == 'm'
        || c == 'u' || c == 'e' || c == 'c' || c == 'z'
}

/// How many digits run up to and including position `i`.
pub open spec fn digit_run(s: Seq<char>, i: int) -> nat
    decreases i + 1,
{
    if i < 0 || i >= s.len() || !('0' <= s[i] && s[i] <= '9') {
        0
    } else {
        1 + digit_run(s, i - 1)
    }
}

/// Whether WKT text holds only plain decimals: keyword letters, no `+`, no exponent (an `e`
/// never follows a digit or a point) and no run of more than 300 digits. Every number in it
/// is then finite: no NaN and no infinity reaches geo.
#[verifier::opaque]
pub open spec fn plain_wkt(s: Seq<char>) -> bool {
    forall|i: int|
        0 <= i < s.len() ==> wkt_char_ok(#[trigger] s[i]) && digit_run(s, i) <= 300 && ((s[i]
            == 'e' || s[i] == 'E') && i > 0 ==> !(('0' <= s[i - 1] && s[i - 1] <= '9') || s[i - 1]
            == '.'))
}

/// Whether WKT text holds only plain decimals.
pub fn plain_wkt_exec(s: &str) -> (r: bool)
    ensures
        r == plain_wkt(s@),
{
    proof {
        reveal(plain_wkt);
    }
    let cs = chars_of(s);
    let mut i: usize = 0;
    let mut run: usize = 0;
    while i < cs.len()
        invariant
            i <= cs.len(),
            cs@ == s@,
            run == digit_run(cs@, i - 1),
            run <= 300,
            forall|j: int| 0 <= j < i ==> wkt_char_ok(#[trigger] cs@[j]) && digit_run(cs@, j) <= 300
                && ((cs@[j] == 'e' || cs@[j] == 'E') && j > 0 ==> !(('0' <= cs@[j - 1] && cs@[j - 1]
                <= '9') || cs@[j - 1] == '.')),
        decreases cs.len() - i,
    {
        let c = cs[i];
        assert(cs@[i as int] == c);
        let ok = ('0' <= c && c <= '9') || c == '.' || c == '-' || c == ' ' || c == '\t' || c == '\n'
            || c == '\r' || c == ',' || c == '(' || c == ')' || c == 'P' || c == 'O' || c == 'I'
            || c == 'N' || c == 'T' || c == 'L' || c == 'S' || c == 'R' || c == 'G' || c == 'Y' || c
            == 'M' || c == 'U' || c == 'E' || c == 'C' || c == 'Z' || c == 'p' || c == 'o' || c
            == 'i' || c == 'n' || c == 't' || c == 'l' || c == 's' || c == 'r' || c == 'g' || c
            == 'y' || c == 'm' || c == 'u' || c == 'e' || c == 'c' || c == 'z';
        if !ok {
            assert(!plain_wkt(s@)) by {
                reveal(plain_wkt);
                assert(!wkt_char_ok(s@[i as int]));
            }
            return false;
        }
        if (c == 'e' || c == 'E') && i > 0 && (('0' <= cs[i - 1] && cs[i - 1] <= '9') || cs[i - 1]
            == '.') {
            assert(!plain_wkt(s@)) by {
                reveal(plain_wkt);
                assert(s@[i - 1] == cs@[i - 1]);
                assert(wkt_char_ok(s@[i as int]));
            }
            return false;
        }
        if '0' <= c && c <= '9' {
            assert(digit_run(cs@, i as int) == 1 + digit_run(cs@, i - 1));
            if run >= 300 {
                assert(!plain_wkt(s@)) by {
                    reveal(plain_wkt);
                    assert(!(digit_run(s@, i as int) <= 300));
                    assert(wkt_char_ok(s@[i as int]));
                }
                return false;
            }
            run = run + 1;
        } else {
            run = 0;
        }
        i = i + 1;
    }
    assert(cs@ == s@);
    true
}

/// The predicates that geo computes between the geometries of two WKT texts; `None` where a
/// text is not WKT.
pub uninterp spec fn relations_of(l: Seq<char>, r: Seq<char>) -> Option<Relations>;

/// Relies on wkt's `TryFromWkt::try_from_wkt_str` to read both texts as geo-types geometries,
/// and on geo's `Relate::relate` for their intersection matrix, read out predicate by predicate.
/// Only texts of plain decimals are handed over: geo's relate panics on a NaN coordinate.
#[verifier::external_body]
fn relate_wkt(l: &str, r: &str) -> (rel: Option<Relations>)
    requires
        plain_wkt(l@),
        plain_wkt(r@),
    ensures
        rel == relations_of(l@, r@),
{
    let a: geo::Geometry = geo::Geometry::try_from_wkt_str(l).ok()?;
    let b: geo::Geometry = geo::Geometry::try_from_wkt_str(r).ok()?;
    let m = a.relate(&b);
    Some(Relations {
        equals: m.is_equal_topo(),
        intersects: m.is_intersects(),
        disjoint: m.is_disjoint(),
        touches: m.is_touches(),
        within: m.is_within(),
        overlaps: m.is_overlaps(),
        crosses: m.is_crosses(),
        contains: m.is_contains(),
    })
}

/// The predicate that a spatial operator names.
pub open spec fn select_relation(op: Seq<char>, m: Relations) -> Option<bool> {
    if op == "s_equals"@ {
        Some(m.equals)
    } else if op == "s_intersects"@ {
        Some(m.intersects)
    } else if op == "s_disjoint"@ {
        Some(m.disjoint)
    } else if op == "s_touches"@ {
        Some(m.touches)
    } else if op == "s_within"@ {
        Some(m.within)
    } else if op == "s_overlaps"@ {
        Some(m.overlaps)
    } else if op == "s_crosses"@ {
        Some(m.crosses)
    } else if op == "s_contains"@ {
        Some(m.contains)
    } else {
        None
    }
}

/// The number that a bounding-box element stands for: a number, or a string that writes one.
pub open spec fn elem_number(e: crate::expr::ExprV) -> Option<Number> {
    match e {
        crate::expr::ExprV::Float(n) => Some(n),
        crate::expr::ExprV::Literal(s) => crate::number::number_of(s),
        _ => None,
    }
}

/// The numbers of a bounding box: min-x, min-y at 0 and 1, max-x, max-y at 2 and 3 (four
/// elements) or at 3 and 4 (six elements), where each of them stands for a number.
pub open spec fn bbox_numbers(b: Seq<crate::expr::ExprV>) -> Option<(Number, Number, Number, Number)> {
    if b.len() != 4 && b.len() != 6 {
        None
    } else {
        let (i, j) = if b.len() == 4 {
            (2int, 3int)
        } else {
            (3int, 4int)
        };
        match (elem_number(b[0]), elem_number(b[1]), elem_number(b[i]), elem_number(b[j])) {
            (Some(x0), Some(y0), Some(x1), Some(y1)) => Some((x0, y0, x1, y1)),
            _ => None,
        }
    }
}

/// The number that a bounding-box element stands for.
fn elem_number_exec(e: &crate::expr::Expr) -> (r: Option<Number>)
    ensures
        r == elem_number(e@),
{
    match e {
        crate::expr::Expr::Float(n) => Some(*n),
        crate::expr::Expr::Literal(s) => crate::number::parse_number(&chars_of(s.as_str())),
        _ => None,
    }
}

/// The WKT polygon of the rectangle from `(x0, y0)` to `(x1, y1)`.
pub open spec fn rect_wkt(x0: Number, y0: Number, x1: Number, y1: Number) -> Seq<char> {
    let (a, b, c, d) = (number_text(x0), number_text(y0), number_text(x1), number_text(y1));
    "POLYGON(("@ + a + " "@ + b + ","@ + c + " "@ + b + ","@ + c + " "@ + d + ","@ + a + " "@ + d
        + ","@ + a + " "@ + b + "))"@
}

/// The WKT of an expression that stands for a geometry: a geometry literal, or a bounding
/// box as its rectangle.
pub open spec fn spatial_wkt(e: crate::expr::ExprV) -> Option<Seq<char>> {
    match e {
        crate::expr::ExprV::Geometry(g) => geometry_wkt(g),
        crate::expr::ExprV::BBox { bbox } => match bbox_numbers(bbox) {
            Some((x0, y0, x1, y1)) => Some(rect_wkt(x0, y0, x1, y1)),
            None => None,
        },
        _ => None,
    }
}

/// The spatial operator `op` between two expressions, where both stand for geometries.
pub open spec fn spatial_value(op: Seq<char>, l: crate::expr::ExprV, r: crate::expr::ExprV) -> Option<bool> {
    match (spatial_wkt(l), spatial_wkt(r)) {
        (Some(a), Some(b)) => if !plain_wkt(a) || !plain_wkt(b) {
            None
        } else {
            match relations_of(a, b) {
                Some(m) => select_relation(op, m),
                None => None,
            }
        },
        _ => None,
    }
}

fn select_exec(op: &str, m: Relations) -> (r: Option<bool>)
    ensures
        r == select_relation(op@, m),
{
    if str_is(op, "s_equals") {
        Some(m.equals)
    } else if str_is(op, "s_intersects") {
        Some(m.intersects)
    } else if str_is(op, "s_disjoint") {
        Some(m.disjoint)
    } else if str_is(op, "s_touches") {
        Some(m.touches)
    } else if str_is(op, "s_within") {
        Some(m.within)
    } else if str_is(op, "s_overlaps") {
        Some(m.overlaps)
    } else if str_is(op, "s_crosses") {
        Some(m.crosses)
    } else if str_is(op, "s_contains") {
        Some(m.contains)
    } else {
        None
    }
}

/// The WKT of an expression that stands for a geometry.
pub fn geometry_of(e: &crate::expr::Expr) -> (r: Option<String>)
    ensures
        r matches Some(s) ==> spatial_wkt(e@) == Some(s@),
        r is None ==> spatial_wkt(e@) is None,
{
    match e {
        crate::expr::Expr::Geometry(g) => match g.to_wkt() {
            Ok(s) => Some(s),
            Err(_) => None,
        },
        crate::expr::Expr::BBox { bbox } => {
            proof {
                crate::expr::lemma_expr_views(bbox@);
            }
            let n = bbox.len();
            if n != 4 && n != 6 {
                return None;
            }
            let (i, j): (usize, usize) = if n == 4 {
                (2, 3)
            } else {
                (3, 4)
            };
            match (
                elem_number_exec(&bbox[0]),
                elem_number_exec(&bbox[1]),
                elem_number_exec(&bbox[i]),
                elem_number_exec(&bbox[j]),
            ) {
                (Some(x0), Some(y0), Some(x1), Some(y1)) => {
                    let (a, b, c, d) = (x0.to_chars(), y0.to_chars(), x1.to_chars(), y1.to_chars());
                    let mut out = chars_of("POLYGON((");
                    push_chars(&mut out, &a);
                    push_str(&mut out, " ");
                    push_chars(&mut out, &b);
                    push_str(&mut out, ",");
                    push_chars(&mut out, &c);
                    push_str(&mut out, " ");
                    push_chars(&mut out, &b);
                    push_str(&mut out, ",");
                    push_chars(&mut out, &c);
                    push_str(&mut out, " ");
                    push_chars(&mut out, &d);
                    push_str(&mut out, ",");
                    push_chars(&mut out, &a);
                    push_str(&mut out, " ");
                    push_chars(&mut out, &d);
                    push_str(&mut out, ",");
                    push_chars(&mut out, &a);
                    push_str(&mut out, " ");
                    push_chars(&mut out, &b);
                    push_str(&mut out, "))");
                    Some(string_of(&out))
                },
                _ => None,
            }
        },
        _ => None,
    }
}

/// Runs a spatial operation on two expressions: the boolean literal of the predicate, or a
/// coercion error where a side is no geometry, or an error for an unknown operator.
pub fn spatial_op(left: &crate::expr::Expr, right: &crate::expr::Expr, op: &str) -> (r: Result<
    crate::expr::Expr,
    crate::error::Error,
>)
    ensures
        r matches Ok(x) ==> spatial_value(op@, left@, right@) matches Some(b) && x@
            == crate::expr::ExprV::Bool(b),
        r is Err ==> spatial_value(op@, left@, right@) is None,
{
    let l = match geometry_of(left) {
        Some(s) => s,
        None => return Err(crate::error::Error::Coercion(String::new())),
    };
    let rr = match geometry_of(right) {
        Some(s) => s,
        None => return Err(crate::error::Error::Coercion(String::new())),
    };
    if !plain_wkt_exec(l.as_str()) || !plain_wkt_exec(rr.as_str()) {
        return Err(crate::error::Error::Coercion(String::new()));
    }
    match relate_wkt(l.as_str(), rr.as_str()) {
        Some(m) => match select_exec(op, m) {
            Some(b) => Ok(crate::expr::Expr::Bool(b)),
            None => Err(crate::error::Error::OpNotImplemented(op.to_owned())),
        },
        None => Err(crate::error::Error::Coercion(String::new())),
    }
}

} // verus!
