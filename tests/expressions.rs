use cql2::error::Error;
use cql2::json::Json;
use cql2::number::Number;
use cql2::sql::ToSqlOptions;
use cql2::temporal::DateRange;
use cql2::{from_json, parse_text, Expr};

fn num(m: i64, s: u32) -> Json {
    Json::Number(Number { mantissa: m, scale: s })
}

fn obj(members: Vec<(&str, Json)>) -> Json {
    Json::Object(members.into_iter().map(|(k, v)| (k.to_string(), v)).collect())
}

fn text(s: &str) -> Json {
    Json::Str(s.to_string())
}

fn item() -> Json {
    obj(vec![(
        "properties",
        obj(vec![
            ("eo:cloud_cover", num(10, 0)),
            ("datetime", text("2020-01-01 00:00:00Z")),
            ("boolfield", Json::Bool(true)),
        ]),
    )])
}

fn reduced_text(input: &str, record: Option<&Json>) -> String {
    parse_text(input).unwrap().reduce(record).unwrap().to_text().unwrap()
}

#[test]
fn keep_z() {
    let point: Expr = parse_text("POINT Z(-105.1019 40.1672 4981)").unwrap();
    assert_eq!("POINT Z(-105.1019 40.1672 4981)", point.to_text().unwrap());
}

#[test]
fn implicit_z() {
    let point: Expr = parse_text("POINT (-105.1019 40.1672 4981)").unwrap();
    assert_eq!("POINT Z(-105.1019 40.1672 4981)", point.to_text().unwrap());
}

#[test]
fn keep_m() {
    let point: Expr = parse_text("POINT M(-105.1019 40.1672 42)").unwrap();
    assert_eq!("POINT M(-105.1019 40.1672 42)", point.to_text().unwrap());
}

#[test]
fn keep_zm() {
    let point: Expr = parse_text("POINT ZM(-105.1019 40.1672 4981 42)").unwrap();
    assert_eq!("POINT ZM(-105.1019 40.1672 4981 42)", point.to_text().unwrap());
}

#[test]
fn point_zm() {
    let _ = parse_text("POINT ZM(-105.1019 40.1672 4981 42)").unwrap();
}

#[test]
fn test_to_ducksql() {
    let expr: Expr = parse_text("foo = 1").unwrap();
    assert_eq!(expr.to_ducksql().unwrap(), "foo = 1");
}

#[test]
fn test_array_ops() {
    let expr: Expr = parse_text("a_contains(foo, bar)").unwrap();
    assert_eq!(expr.to_ducksql().unwrap(), "list_has_all(foo, bar)");
}

#[test]
fn test_basic_expression() {
    let expr: Expr = parse_text("1 + 2 > 4").unwrap();
    let sql_str = expr.to_sql().unwrap();
    assert_eq!(sql_str, "1 + 2 > 4");
}

#[test]
fn test_t_before_expression() {
    let expr: Expr = parse_text("t_before(ts_start, DATE('2020-02-01'))").unwrap();
    let sql_str = expr.to_sql().expect("to_sql_ast failed");
    assert_eq!(sql_str, "ts_start < CAST('2020-02-01' AS DATE)");
}

#[test]
fn test_property_resolver_json() {
    let mapping = obj(vec![("properties", obj(vec![("collection", text("payload ->> 'collection'"))]))]);
    let expr: Expr = parse_text("collection = 'landsat'").unwrap();
    let sql = expr.to_sql_with_options(&ToSqlOptions::with_json(&mapping)).unwrap();
    assert_eq!(sql, "payload ->> 'collection' = 'landsat'");
}

#[test]
fn test_function_resolver_json() {
    let mapping = obj(vec![("functions", obj(vec![("lower", text("custom.lower"))]))]);
    let expr: Expr = parse_text("casei(name)").unwrap();
    let sql = expr.to_sql_with_options(&ToSqlOptions::with_json(&mapping)).unwrap();
    assert_eq!(sql, "custom.lower(name)");
}

#[test]
fn timestamp_math() {
    let expr: Expr = from_json(&obj(vec![("date", text("2020-02-18"))])).unwrap();
    let range = DateRange::from_expr(&expr).unwrap();
    assert_eq!(range.end - range.start, 86_399_999_999_999);
}

#[test]
fn text_round_trip() {
    let expr = parse_text("landsat:scene_id = 'LC82030282019133LGN00'").unwrap();
    let t = expr.to_text().unwrap();
    assert_eq!(t, "(\"landsat:scene_id\" = 'LC82030282019133LGN00')");
    assert_eq!(parse_text(&t).unwrap().to_text().unwrap(), t);
}

#[test]
fn arithmetic_reduction_with_property() {
    let rec = obj(vec![("properties", obj(vec![("eo:cloud_cover", num(10, 0))]))]);
    assert_eq!(reduced_text("\"eo:cloud_cover\" + 10", Some(&rec)), "20");
}

#[test]
fn boolean_idempotence() {
    let rec = item();
    assert_eq!(
        reduced_text("(bork=1) and (bork=1) and (bork=1 and true)", Some(&rec)),
        "(bork = 1)"
    );
}

#[test]
fn reduce_bool_property() {
    let rec = item();
    assert_eq!(reduced_text("boolfield = true", Some(&rec)), "true");
}

#[test]
fn matches_records() {
    let rec = item();
    let expr = parse_text("boolfield and 1 + 2 = 3").unwrap();
    assert_eq!(expr.matches(Some(&rec)).unwrap(), true);
    let expr = parse_text("eo:cloud_cover <= 9").unwrap();
    assert_eq!(expr.matches(Some(&rec)).unwrap(), false);
}

#[test]
fn matches_unreduced_is_an_error() {
    let expr = parse_text("bork = 1").unwrap();
    assert!(matches!(expr.matches(None), Err(Error::NonReduced)));
}

#[test]
fn spatial_temporal_mix_sql() {
    let expr = parse_text(
        "s_intersects(geom, POINT(0 0)) and foo >= 1 and bar='baz' and TIMESTAMP('2020-01-01 00:00:00Z') >= BoRk",
    )
    .unwrap();
    let sql = expr.to_sql().unwrap();
    assert_eq!(
        sql,
        "st_intersects(geom, st_geomfromtext('POINT(0 0)')) AND foo >= 1 AND bar = 'baz' AND CAST('2020-01-01 00:00:00Z' AS TIMESTAMP WITH TIME ZONE) >= \"BoRk\""
    );
}

#[test]
fn temporal_overlaps_sql() {
    let expr = parse_text(
        "t_overlaps(interval(a,'2020-01-01T00:00:00Z'),interval('2020-01-01T00:00:00Z','2020-02-01T00:00:00Z'))",
    )
    .unwrap();
    assert_eq!(
        expr.to_sql().unwrap(),
        "(a < CAST('2020-02-01T00:00:00Z' AS TIMESTAMP WITH TIME ZONE) AND CAST('2020-01-01T00:00:00Z' AS TIMESTAMP WITH TIME ZONE) < CAST('2020-01-01T00:00:00Z' AS TIMESTAMP WITH TIME ZONE) AND CAST('2020-01-01T00:00:00Z' AS TIMESTAMP WITH TIME ZONE) < CAST('2020-02-01T00:00:00Z' AS TIMESTAMP WITH TIME ZONE))"
    );
}

#[test]
fn temporal_overlaps_with_property_end() {
    let expr = parse_text(
        "t_overlaps(interval(a,b),interval('2020-01-01T00:00:00Z','2020-02-01T00:00:00Z'))",
    )
    .unwrap();
    assert_eq!(
        expr.to_ducksql().unwrap(),
        "(a < CAST('2020-02-01T00:00:00Z' AS TIMESTAMP WITH TIME ZONE) AND CAST('2020-01-01T00:00:00Z' AS TIMESTAMP WITH TIME ZONE) < b AND b < CAST('2020-02-01T00:00:00Z' AS TIMESTAMP WITH TIME ZONE))"
    );
}

#[test]
fn combine_with_and() {
    let a = parse_text("a = 1").unwrap();
    let b = parse_text("b = 2").unwrap();
    assert_eq!((a + b).to_text().unwrap(), "((a = 1) AND (b = 2))");
}

#[test]
fn between_reshaping() {
    let e = parse_text("x BETWEEN 1 AND 5").unwrap();
    assert_eq!(e.to_text().unwrap(), "(x BETWEEN 1 AND 5)");
    let e = parse_text("a = 1 AND x BETWEEN 1 AND 5 AND b = 2").unwrap();
    assert_eq!(e.to_text().unwrap(), "((a = 1) AND (x BETWEEN 1 AND 5) AND (b = 2))");
    let e = parse_text("x NOT BETWEEN 1 AND 5").unwrap();
    assert_eq!(e.to_text().unwrap(), "(NOT (x BETWEEN 1 AND 5))");
}

#[test]
fn not_like_and_in() {
    let e = parse_text("name NOT LIKE 'a%'").unwrap();
    assert_eq!(e.to_text().unwrap(), "(NOT (name LIKE 'a%'))");
    let e = parse_text("x IN ('a', 'b')").unwrap();
    assert_eq!(e.to_text().unwrap(), "(x IN ('a', 'b'))");
    let e = parse_text("x IS NOT NULL").unwrap();
    assert_eq!(e.to_text().unwrap(), "(NOT (x IS NULL))");
}

#[test]
fn prefix_minus_and_precedence() {
    let e = parse_text("1 + 2 * 3").unwrap();
    assert_eq!(e.to_text().unwrap(), "(1 + (2 * 3))");
    let e = parse_text("-x").unwrap();
    assert_eq!(e.to_text().unwrap(), "(-1 * x)");
    assert_eq!(reduced_text("(1 + 2) * 3", None), "9");
    assert_eq!(reduced_text("1.5 + 0.25", None), "1.75");
    assert_eq!(reduced_text("2 - 3", None), "-1");
}

#[test]
fn or_flattening_and_folding() {
    assert_eq!(reduced_text("a = 1 or false or a = 1", None), "(a = 1)");
    assert_eq!(reduced_text("a = 1 or true", None), "true");
    assert_eq!(reduced_text("a = 1 and false", None), "false");
    assert_eq!(reduced_text("b = 2 and a = 1", None), "((a = 1) AND (b = 2))");
    assert_eq!(reduced_text("not true", None), "false");
}

#[test]
fn string_folding() {
    assert_eq!(reduced_text("casei('HeLLo')", None), "'hello'");
    assert_eq!(reduced_text("accenti('Café')", None), "'Cafe'");
    assert_eq!(reduced_text("'abc' LIKE 'a%'", None), "true");
    assert_eq!(reduced_text("'abc' LIKE 'b%'", None), "false");
    assert_eq!(reduced_text("'b' IN ('a', 'b')", None), "true");
    assert_eq!(reduced_text("3 BETWEEN 1 AND 5", None), "true");
    assert_eq!(reduced_text("'a' < 'b'", None), "true");
}

#[test]
fn array_folding() {
    assert_eq!(reduced_text("a_contains(('a', 'b'), ('a', 'a'))", None), "true");
    assert_eq!(reduced_text("a_equals(('a', 'b'), ('b', 'a'))", None), "true");
    assert_eq!(reduced_text("a_containedby(('a', 'c'), ('a', 'b'))", None), "false");
    assert_eq!(reduced_text("a_overlaps(('a', 'c'), ('c', 'd'))", None), "true");
}

#[test]
fn temporal_folding() {
    assert_eq!(
        reduced_text("t_before(TIMESTAMP('2020-01-01T00:00:00Z'), TIMESTAMP('2021-01-01T00:00:00Z'))", None),
        "true"
    );
    assert_eq!(
        reduced_text("t_after(TIMESTAMP('2020-01-01T00:00:00Z'), TIMESTAMP('2021-01-01T00:00:00Z'))", None),
        "false"
    );
    assert_eq!(
        reduced_text("t_during(INTERVAL('2020-01-02', '2020-01-03'), INTERVAL('2020-01-01', '2020-02-01'))", None),
        "true"
    );
    assert_eq!(reduced_text("t_intersects(DATE('2020-01-01'), DATE('2020-01-01'))", None), "true");
    assert_eq!(reduced_text("t_meets(DATE('2020-01-01'), DATE('2020-01-02'))", None), "false");
    assert_eq!(
        reduced_text("t_during(DATE('2020-01-02'), INTERVAL('2020-01-01', '2020-02-01'))", None),
        "t_during(DATE('2020-01-02'), INTERVAL('2020-01-01','2020-02-01'))"
    );
}

#[test]
fn spatial_folding() {
    assert_eq!(
        reduced_text("s_intersects(POINT(0 0), POLYGON((-1 -1, 1 -1, 1 1, -1 1, -1 -1)))", None),
        "true"
    );
    assert_eq!(
        reduced_text("s_disjoint(POINT(5 5), POLYGON((-1 -1, 1 -1, 1 1, -1 1, -1 -1)))", None),
        "true"
    );
    assert_eq!(reduced_text("s_within(BBOX(0, 0, 1, 1), BBOX(-1, -1, 2, 2))", None), "true");
}

#[test]
fn errors() {
    assert!(matches!(parse_text("a = "), Err(Error::InvalidCql2Text(_))));
    assert!(matches!(parse_text("a = 1 b"), Err(Error::InvalidCql2Text(_))));
    assert!(matches!(parse_text("date()"), Err(Error::MissingArgument(_))));
    let bad = Expr::Operation { op: "between".to_string(), args: vec![Expr::Bool(true)] };
    assert!(matches!(
        bad.to_text(),
        Err(Error::InvalidNumberOfArguments { actual: 1, expected: 3, .. })
    ));
    let d = DateRange::from_expr(&Expr::Bool(true));
    assert!(matches!(d, Err(Error::Coercion(_))));
    let t = DateRange::from_expr(&Expr::Literal("not a date".to_string()));
    assert!(matches!(t, Err(Error::ParseTimestamp(_))));
}

#[test]
fn json_decoding() {
    let j = obj(vec![
        ("op", text("=")),
        ("args", Json::Array(vec![obj(vec![("property", text("landsat:scene_id"))]), text("LC82030282019133LGN00")])),
    ]);
    let e = from_json(&j).unwrap();
    assert_eq!(e.to_text().unwrap(), "(\"landsat:scene_id\" = 'LC82030282019133LGN00')");
    assert!(matches!(from_json(&obj(vec![("foo", num(1, 0))])), Err(Error::InvalidJson(_))));
}
