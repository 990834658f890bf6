use geozero::GeozeroGeometry;
use vstd::prelude::*;
use crate::error::Error;
use crate::expr::{lemma_expr_views, Expr, ExprV, expr_views};
use crate::geometry::{Geometry, GeometryV};
use crate::text::chars_of;
use crate::json::{json_view, json_views, lemma_member_views, member_views, Json, JsonV};

verus! {

broadcast use vstd::std_specs::vec::group_vec_axioms, vstd::seq::group_seq_axioms;

/// Whether WKT text carries a `Z` dimension tag (no geometry keyword has a `Z`).
pub open spec fn wkt_has_z(w: Seq<char>) -> bool {
    w.contains('Z') || w.contains('z')
}

/// The GeoJSON text that geozero writes for WKT text, with three values per position where `z`
/// asks for them; `None` where the text is no WKT.
pub uninterp spec fn wkt_geojson(w: Seq<char>, z: bool) -> Option<Seq<char>>;

/// Relies on geozero's WKT reader (`wkt::Wkt` as `GeozeroGeometry`) and its `GeoJsonWriter`
/// with the dimensions asked for: the geometry of the WKT text as GeoJSON text.
#[verifier::external_body]
fn geojson_of_wkt(w: &str, z: bool) -> (r: Option<String>)
    ensures
        r matches Some(t) ==> wkt_geojson(w@, z) == Some(t@),
        r is None ==> wkt_geojson(w@, z) is None,
{
    let mut out: Vec<u8> = Vec::new();
    let dims = geozero::CoordDimensions { z, m: false, t: false, tm: false };
    let mut writer = geozero::geojson::GeoJsonWriter::with_dims(&mut out, dims);
    geozero::wkt::Wkt(w).process_geom(&mut writer).ok()?;
    String::from_utf8(out).ok()
}

/// Whether WKT text carries a `Z` dimension tag.
fn has_z(w: &str) -> (r: bool)
    ensures
        r == wkt_has_z(w@),
{
    let cs = chars_of(w);
    let mut i: usize = 0;
    while i < cs.len()
        invariant
            i <= cs.len(),
            cs@ == w@,
            forall|j: int| 0 <= j < i ==> cs@[j] != 'Z' && cs@[j] != 'z',
        decreases cs.len() - i,
    {
        if cs[i] == 'Z' || cs[i] == 'z' {
            assert(cs@[i as int] == cs[i as int]);
            return true;
        }
        i = i + 1;
    }
    false
}

/// A JSON object of one member.
pub open spec fn single(key: Seq<char>, v: JsonV) -> JsonV {
    JsonV::Object(seq![(key, v)])
}

/// The cql2-json values of a sequence of expressions, where each has one.
pub open spec fn jsons_of(es: Seq<ExprV>) -> Option<Seq<JsonV>>
    decreases es,
{
    if es.len() == 0 {
        Some(seq![])
    } else {
        match (jsons_of(es.subrange(0, es.len() - 1)), json_of(es[es.len() - 1])) {
            (Some(front), Some(j)) => Some(front.push(j)),
            _ => None,
        }
    }
}

/// The cql2-json value of an expression: `{"op", "args"}` for an operation, the one-member
/// objects `interval`, `timestamp`, `date`, `property` and `bbox`, an array for an array,
/// the GeoJSON object of a GeoJSON geometry, the GeoJSON text that geozero writes for a WKT
/// geometry (with its `Z` kept), and the literal itself for a literal. `None` for WKT that
/// geozero cannot read.
pub open spec fn json_of(e: ExprV) -> Option<JsonV>
    decreases e,
{
    match e {
        ExprV::Operation { op, args } => match jsons_of(args) {
            Some(js) => Some(JsonV::Object(seq![("op"@, JsonV::Str(op)), ("args"@, JsonV::Array(js))])),
            None => None,
        },
        ExprV::Interval { interval } => match jsons_of(interval) {
            Some(js) => Some(single("interval"@, JsonV::Array(js))),
            None => None,
        },
        ExprV::Timestamp { timestamp } => match json_of(*timestamp) {
            Some(j) => Some(single("timestamp"@, j)),
            None => None,
        },
        ExprV::Date { date } => match json_of(*date) {
            Some(j) => Some(single("date"@, j)),
            None => None,
        },
        ExprV::Property { property } => Some(single("property"@, JsonV::Str(property))),
        ExprV::BBox { bbox } => match jsons_of(bbox) {
            Some(js) => Some(single("bbox"@, JsonV::Array(js))),
            None => None,
        },
        ExprV::Float(n) => Some(JsonV::Number(n)),
        ExprV::Literal(s) => Some(JsonV::Str(s)),
        ExprV::Bool(b) => Some(JsonV::Bool(b)),
        ExprV::Null => Some(JsonV::Null),
        ExprV::Array(v) => match jsons_of(v) {
            Some(js) => Some(JsonV::Array(js)),
            None => None,
        },
        ExprV::Geometry(g) => match g {
            GeometryV::GeoJSON(j) => Some(j),
            GeometryV::Wkt(w) => match wkt_geojson(w, wkt_has_z(w)) {
                Some(t) => Some(JsonV::Raw(t)),
                None => None,
            },
        },
    }
}

/// A JSON object of one member.
fn single_exec(key: &str, v: Json) -> (r: Json)
    ensures
        r@ == single(key@, v@),
{
    let m = vec![(key.to_owned(), v)];
    proof {
        lemma_member_views(m@);
        assert(member_views(m@) =~= seq![(key@, v@)]);
    }
    Json::Object(m)
}

/// Where some prefix has no JSON, neither has the whole.
pub proof fn lemma_jsons_prefix_none(es: Seq<ExprV>, j: int)
    requires
        0 <= j <= es.len(),
        jsons_of(es.subrange(0, j)) is None,
    ensures
        jsons_of(es) is None,
    decreases es.len() - j,
{
    if j < es.len() {
        let next = es.subrange(0, j + 1);
        assert(next.subrange(0, j) =~= es.subrange(0, j));
        lemma_jsons_prefix_none(es, j + 1);
    } else {
        assert(es.subrange(0, j) =~= es);
    }
}

impl Expr {
    /// The cql2-json values of a sequence of expressions.
    fn values(es: &Vec<Expr>) -> (r: Result<Vec<Json>, Error>)
        ensures
            r matches Ok(js) ==> jsons_of(expr_views(es@)) == Some(json_views(js@)),
            r is Err ==> jsons_of(expr_views(es@)) is None,
        decreases es@, 0nat,
    {
        let mut out: Vec<Json> = Vec::new();
        let mut i: usize = 0;
        while i < es.len()
            invariant
                i <= es.len(),
                out.len() == i,
                jsons_of(expr_views(es@.subrange(0, i as int))) == Some(json_views(out@)),
            decreases es.len() - i,
        {
            proof {
                assert(decreases_to!(es@ => es@[i as int]));
            }
            let r = es[i].to_value();
            proof {
                let sub = es@.subrange(0, i + 1);
                assert(sub.subrange(0, i as int) =~= es@.subrange(0, i as int));
                assert(sub[i as int] == es@[i as int]);
                lemma_expr_views(sub);
                lemma_expr_views(es@);
                lemma_expr_views(es@.subrange(0, i as int));
                assert(expr_views(sub) =~= expr_views(es@).subrange(0, i + 1));
                assert(expr_views(sub).subrange(0, i as int) =~= expr_views(
                    es@.subrange(0, i as int),
                ));
            }
            let j = match r {
                Ok(j) => j,
                Err(e) => {
                    proof {
                        lemma_jsons_prefix_none(expr_views(es@), i + 1);
                    }
                    return Err(e);
                },
            };
            let ghost before = out@;
            out.push(j);
            proof {
                assert(out@.subrange(0, i as int) =~= before);
                assert(out@[i as int] == j);
                assert(json_views(out@) == json_views(out@.subrange(0, i as int)).push(
                    json_view(out@[i as int]),
                ));
            }
            i = i + 1;
        }
        proof {
            assert(es@.subrange(0, es.len() as int) =~= es@);
        }
        Ok(out)
    }

    /// Converts this expression to its cql2-json value.
    pub fn to_value(&self) -> (r: Result<Json, Error>)
        ensures
            r matches Ok(j) ==> json_of(self@) == Some(j@),
            r is Err ==> json_of(self@) is None,
        decreases *self, 1nat,
    {
        match self {
            Expr::Operation { op, args } => {
                let js = Self::values(args)?;
                let m = vec![("op".to_owned(), Json::Str(op.clone())), ("args".to_owned(), Json::Array(js))];
                proof {
                    lemma_member_views(m@);
                    assert(member_views(m@) =~= seq![("op"@, JsonV::Str(op@)), ("args"@, JsonV::Array(json_views(js@)))]);
                }
                Ok(Json::Object(m))
            },
            Expr::Interval { interval } => {
                let js = Self::values(interval)?;
                Ok(single_exec("interval", Json::Array(js)))
            },
            Expr::Timestamp { timestamp } => {
                let j = timestamp.to_value()?;
                Ok(single_exec("timestamp", j))
            },
            Expr::Date { date } => {
                let j = date.to_value()?;
                Ok(single_exec("date", j))
            },
            Expr::Property { property } => Ok(single_exec("property", Json::Str(property.clone()))),
            Expr::BBox { bbox } => {
                let js = Self::values(bbox)?;
                Ok(single_exec("bbox", Json::Array(js)))
            },
            Expr::Float(n) => Ok(Json::Number(*n)),
            Expr::Literal(s) => Ok(Json::Str(s.clone())),
            Expr::Bool(b) => Ok(Json::Bool(*b)),
            Expr::Null => Ok(Json::Null),
            Expr::Array(v) => {
                let js = Self::values(v)?;
                Ok(Json::Array(js))
            },
            Expr::Geometry(g) => match g {
                Geometry::GeoJSON(j) => Ok(j.copy()),
                Geometry::Wkt(w) => match geojson_of_wkt(w.as_str(), has_z(w.as_str())) {
                    Some(t) => Ok(Json::Raw(t)),
                    None => Err(Error::Coercion(String::new())),
                },
            },
        }
    }
}

} // verus!
