use cql2::cli::{detect_format, InputFormat};
use cql2::json::Json;
use cql2::number::{parse_number, Number};
use cql2::operators::{add_parens, default_args, pad, repeat_join, rm_parens, OpType, Ops};
use cql2::parser::{normalize_op, strip_quotes};
use cql2::temporal::{pad_timestamp, temporal_relation_exec, DateRange};
use cql2::{parse_text, Expr};
use cql2::geometry::{geojson_ndims, spatial_op, Geometry};
use cql2::error::Error;
use std::cmp::Ordering;

fn json_text(j: &Json) -> String {
    match j {
        Json::Null => "null".to_string(),
        Json::Bool(b) => b.to_string(),
        Json::Number(n) => n.to_chars().into_iter().collect(),
        Json::Str(s) => serde_json::to_string(s).unwrap(),
        Json::Raw(t) => t.clone(),
        Json::Array(v) => format!("[{}]", v.iter().map(json_text).collect::<Vec<_>>().join(",")),
        Json::Object(m) => format!(
            "{{{}}}",
            m.iter()
                .map(|(k, v)| format!("{}:{}", serde_json::to_string(k).unwrap(), json_text(v)))
                .collect::<Vec<_>>()
                .join(",")
        ),
    }
}

fn chars(s: &str) -> Vec<char> {
    s.chars().collect()
}

#[test]
fn canonical_json() {
    let e = parse_text("landsat:scene_id = 'LC82030282019133LGN00'").unwrap();
    let j = e.to_value().unwrap();
    assert_eq!(
        json_text(&j),
        "{\"op\":\"=\",\"args\":[{\"property\":\"landsat:scene_id\"},\"LC82030282019133LGN00\"]}"
    );
    let back = cql2::from_json(&j).unwrap();
    assert_eq!(back.to_text().unwrap(), e.to_text().unwrap());
}

#[test]
fn json_of_constructs() {
    let e = parse_text("t_before(DATE('2020-01-01'), INTERVAL('2020-01-01', '..'))").unwrap();
    let j = e.to_value().unwrap();
    assert_eq!(
        json_text(&j),
        "{\"op\":\"t_before\",\"args\":[{\"date\":\"2020-01-01\"},{\"interval\":[\"2020-01-01\",\"..\"]}]}"
    );
    let wkt = parse_text("POINT (-105.1019 40.1672 4981)").unwrap();
    let j = wkt.to_value().unwrap();
    let v: serde_json::Value = serde_json::from_str(&json_text(&j)).unwrap();
    assert_eq!(v["type"], "Point");
    assert_eq!(v["coordinates"].as_array().unwrap().len(), 3);
    let flat = parse_text("POINT(1 2)").unwrap().to_value().unwrap();
    let v: serde_json::Value = serde_json::from_str(&json_text(&flat)).unwrap();
    assert_eq!(v["coordinates"].as_array().unwrap().len(), 2);
}

#[test]
fn numbers() {
    let n = parse_number(&chars("2.50")).unwrap();
    assert_eq!(n, Number { mantissa: 25, scale: 1 });
    assert_eq!(n.to_chars().into_iter().collect::<String>(), "2.5");
    let m = parse_number(&chars("-1e3")).unwrap();
    assert_eq!(m.to_chars().into_iter().collect::<String>(), "-1000");
    let small = parse_number(&chars("0.05")).unwrap();
    assert_eq!(small.to_chars().into_iter().collect::<String>(), "0.05");
    assert!(parse_number(&chars("abc")).is_none());
    assert!(parse_number(&chars("")).is_none());
    let sum = n.checked_add(&small).unwrap();
    assert_eq!(sum.to_chars().into_iter().collect::<String>(), "2.55");
    let prod = n.checked_mul(&m).unwrap();
    assert_eq!(prod.to_chars().into_iter().collect::<String>(), "-2500");
    assert_eq!(n.compare(&small), 1);
    assert_eq!(Number::from_int(i64::MAX).checked_add(&Number::from_int(1)), None);
}

#[test]
fn timestamps() {
    assert_eq!(pad_timestamp(&chars("2020")).into_iter().collect::<String>(), "2020-01-01T00:00:00Z");
    assert_eq!(
        pad_timestamp(&chars("'2020-01-01 10:00'")).into_iter().collect::<String>(),
        "2020-01-01T10:00:00Z"
    );
    let a = DateRange { start: 0, end: 10 };
    let b = DateRange { start: 10, end: 20 };
    assert_eq!(temporal_relation_exec("t_meets", a, b), Some(true));
    assert_eq!(temporal_relation_exec("t_metby", b, a), Some(true));
    assert_eq!(temporal_relation_exec("t_before", a, b), Some(false));
    assert_eq!(temporal_relation_exec("t_intersects", a, b), Some(true));
    assert_eq!(temporal_relation_exec("t_disjoint", a, b), Some(false));
    assert_eq!(temporal_relation_exec("t_unknown", a, b), None);
}

#[test]
fn range_order() {
    let a = DateRange { start: 0, end: 10 };
    let b = DateRange { start: 11, end: 20 };
    let c = DateRange { start: 5, end: 15 };
    assert_eq!(a.partial_cmp(&a), Some(Ordering::Equal));
    assert_eq!(a.partial_cmp(&b), Some(Ordering::Less));
    assert_eq!(b.partial_cmp(&a), Some(Ordering::Greater));
    assert_eq!(a.partial_cmp(&c), None);
    assert!(a < b);
}

#[test]
fn temporal_formulas_agree_with_sql() {
    // The SQL of t_finishes compares the ends as the relation does.
    let e = parse_text("t_finishes(interval(a, b), interval(c, d))").unwrap();
    assert_eq!(e.to_sql().unwrap(), "(b = d AND a > c)");
    let l = DateRange { start: 5, end: 10 };
    let r = DateRange { start: 0, end: 10 };
    assert_eq!(temporal_relation_exec("t_finishes", l, r), Some(10 == 10 && 5 > 0));
    let e = parse_text("t_disjoint(interval(a, b), interval(c, d))").unwrap();
    assert_eq!(e.to_sql().unwrap(), "NOT (a <= d AND b >= c)");
}

#[test]
fn spatial_names_in_sql() {
    for name in ["s_equals", "s_intersects", "s_disjoint", "s_touches", "s_within", "s_overlaps", "s_crosses", "s_contains"] {
        let e = parse_text(&format!("{name}(geom, other)")).unwrap();
        assert_eq!(e.to_sql().unwrap(), format!("st_{}(geom, other)", &name[2..]));
    }
}

#[test]
fn sorted_dedup_children() {
    let e = parse_text("c = 1 and a = 1 and b = 1 and a = 1").unwrap();
    let r = e.reduce(None).unwrap();
    assert_eq!(r.to_text().unwrap(), "((a = 1) AND (b = 1) AND (c = 1))");
}

#[test]
fn matched_means_reduced_true() {
    let e = parse_text("1 < 2 and 'a' = 'a'").unwrap();
    assert_eq!(e.matches(None).unwrap(), true);
    assert_eq!(e.reduce(None).unwrap().to_text().unwrap(), "true");
}

#[test]
fn templates() {
    assert_eq!(default_args(), Some(2));
    assert_eq!(repeat_join("{}", ", ", 3), "{}, {}, {}");
    assert_eq!(repeat_join("x", "-", 0), "");
    assert_eq!(pad("AND"), " AND ");
    assert_eq!(add_parens("a".to_string()), "(a)");
    assert_eq!(add_parens("(a)".to_string()), "(a)");
    assert_eq!(rm_parens("(a)".to_string()), "a");
    assert_eq!(rm_parens("a".to_string()), "a");
    let ops = Ops::new();
    assert_eq!(ops.len(), 48);
    assert_eq!(ops.inner().len(), 48);
    let and = ops.get("and").unwrap();
    assert_eq!(and.optype, OpType::Op);
    assert_eq!(and.get_template(None, None), "({} AND {})");
    let within = ops.get("s_within").unwrap();
    assert_eq!(within.get_template(None, Some("?")), "s_within(?, ?)");
    let not = ops.get("not").unwrap();
    assert_eq!(not.get_template(None, None), "\"not\"({})");
    assert!(ops.get("nope").is_none());
}

#[test]
fn names_and_quotes() {
    assert_eq!(normalize_op("S_Within"), "s_within");
    assert_eq!(normalize_op("EQ"), "=");
    assert_eq!(strip_quotes("'abc'"), "abc");
    assert_eq!(strip_quotes("\"abc\""), "abc");
    assert_eq!(strip_quotes("abc'"), "abc'");
}

#[test]
fn format_detection() {
    assert_eq!(detect_format("  {\"op\": \"=\"}"), InputFormat::Json);
    assert_eq!(detect_format("a = 1"), InputFormat::Text);
    assert_eq!(detect_format(""), InputFormat::Text);
}

#[test]
fn literal_escaping() {
    let e = parse_text("name = 'it''s'").unwrap();
    assert_eq!(e.to_text().unwrap(), "(name = 'it''s')");
    assert_eq!(e.to_sql().unwrap(), "name = 'it''s'");
    let e = parse_text("\"my \"\"field\"\"\" = 1").unwrap();
    assert_eq!(e.to_text().unwrap(), "(\"my \"\"field\"\"\" = 1)");
}

#[test]
fn sql_forms() {
    let e = parse_text("x IS NULL and not y = 1 and z BETWEEN 1 AND 2 and q IN (1, 2) and n LIKE 'a%'").unwrap();
    assert_eq!(
        e.to_sql().unwrap(),
        "x IS NULL AND NOT y = 1 AND z BETWEEN 1 AND 2 AND q = ANY(ARRAY[1, 2]) AND n LIKE 'a%'"
    );
    let e = parse_text("a_overlaps(a, b) or a_containedby(a, b) or 2 ^ 3 = x").unwrap();
    assert_eq!(e.to_sql().unwrap(), "a && b OR a <@ b OR power(2, 3) = x");
    assert_eq!(e.to_ducksql().unwrap(), "list_has_any(a, b) OR list_has_all(b, a) OR power(2, 3) = x");
    let e = parse_text("s_intersects(geom, BBOX(0, 0, 1, 1))").unwrap();
    assert_eq!(e.to_sql().unwrap(), "st_intersects(geom, st_makeenvelope(0, 0, 1, 1))");
    let e: Expr = parse_text("accenti(casei(name)) = 'x'").unwrap();
    assert_eq!(e.to_sql().unwrap(), "strip_accents(lower(name)) = 'x'");
}

#[test]
fn reduce_twice_is_reduce_once() {
    let rec = Json::Object(vec![(
        "properties".to_string(),
        Json::Object(vec![
            ("a".to_string(), Json::Number(Number { mantissa: 3, scale: 0 })),
            ("s".to_string(), Json::Str("x".to_string())),
        ]),
    )]);
    for input in [
        "a + 1 > 2 and b = 1 and c < 2 and b = 1",
        "(x = 1 or y = 2) and (y = 2 or x = 1) and s = 'x'",
        "not (q = 1) or t_before(d, DATE('2020-01-01'))",
    ] {
        let once = parse_text(input).unwrap().reduce(Some(&rec)).unwrap();
        let twice = once.reduce(Some(&rec)).unwrap();
        assert_eq!(once.to_text().unwrap(), twice.to_text().unwrap());
    }
}

#[test]
fn reduce_does_not_grow() {
    let rec = Json::Object(vec![("a".to_string(), Json::Number(Number { mantissa: 3, scale: 0 }))]);
    let e = parse_text("a + 1 = 4 and (b = 2 and b = 2)").unwrap();
    let before = e.to_text().unwrap();
    let after = e.reduce(Some(&rec)).unwrap().to_text().unwrap();
    assert_eq!(after, "(b = 2)");
    assert!(after.len() < before.len());
}

fn point_json(coords: Vec<Json>) -> Json {
    Json::Object(vec![
        ("type".to_string(), Json::Str("Point".to_string())),
        ("coordinates".to_string(), Json::Array(coords)),
    ])
}

fn n(m: i64, s: u32) -> Json {
    Json::Number(Number { mantissa: m, scale: s })
}

#[test]
fn geojson_to_wkt() {
    let g = Geometry::GeoJSON(point_json(vec![n(-1051019, 4), n(401672, 4)]));
    assert_eq!(g.to_wkt().unwrap(), "POINT(-105.1019 40.1672)");
    let j3 = point_json(vec![n(1, 0), n(2, 0), n(3, 0)]);
    assert_eq!(geojson_ndims(&j3), 3);
    assert_eq!(Geometry::GeoJSON(j3).to_wkt().unwrap(), "POINT(1 2 3)");
    let line = Json::Object(vec![
        ("type".to_string(), Json::Str("LineString".to_string())),
        ("coordinates".to_string(), Json::Array(vec![Json::Array(vec![n(0, 0), n(0, 0)])])),
    ]);
    assert_eq!(geojson_ndims(&line), 2);
}

#[test]
fn geojson_in_sql_and_text() {
    let e = Expr::Operation {
        op: "s_intersects".to_string(),
        args: vec![
            Expr::Property { property: "geom".to_string() },
            Expr::Geometry(Geometry::GeoJSON(point_json(vec![n(1, 0), n(2, 0)]))),
        ],
    };
    assert_eq!(
        e.to_sql().unwrap(),
        "st_intersects(geom, st_geomfromgeojson('{\"type\":\"Point\",\"coordinates\":[1,2]}'))"
    );
    assert_eq!(e.to_text().unwrap(), "s_intersects(geom, POINT(1 2))");
}

#[test]
fn nan_coordinates_are_refused() {
    let a = Expr::Geometry(Geometry::Wkt("MULTIPOINT((1 1),(+nan 0))".to_string()));
    let b = parse_text("POINT(1 1)").unwrap();
    assert!(matches!(spatial_op(&a, &b, "s_intersects"), Err(Error::Coercion(_))));
    let c = Expr::Geometry(Geometry::Wkt("POINT(1e999 0)".to_string()));
    assert!(matches!(spatial_op(&c, &b, "s_intersects"), Err(Error::Coercion(_))));
}

#[test]
fn unfoldable_and_stays() {
    let g = Expr::Geometry(Geometry::GeoJSON(Json::Object(vec![(
        "type".to_string(),
        Json::Str("Nothing".to_string()),
    )])));
    let e = Expr::Operation {
        op: "and".to_string(),
        args: vec![parse_text("p = 1").unwrap(), g],
    };
    let r = e.reduce(None).unwrap();
    assert!(matches!(r, Expr::Operation { ref op, ref args } if op == "and" && args.len() == 2));
}

#[test]
fn sql_keeps_grouping() {
    let e = parse_text("a = 1 or (b = 2 and c = 3)").unwrap();
    assert_eq!(e.to_sql().unwrap(), "a = 1 OR (b = 2 AND c = 3)");
}

#[test]
fn literal_with_backslash() {
    let e = parse_text("x = 'a\\b''c'").unwrap();
    assert_eq!(e.to_text().unwrap(), "(x = 'a\\b''c')");
}

#[test]
fn arity_error_names_counts() {
    let bad = Expr::Operation { op: "like".to_string(), args: vec![Expr::Bool(true)] };
    match bad.to_text() {
        Err(Error::InvalidNumberOfArguments { name, actual, expected }) => {
            assert_eq!((name.as_str(), actual, expected), ("like", 1, 2));
        }
        other => panic!("unexpected {other:?}"),
    }
}

#[test]
fn bbox_of_numeric_strings() {
    let b = Expr::BBox {
        bbox: vec![
            Expr::Literal("0".to_string()),
            Expr::Literal("0".to_string()),
            Expr::Literal("1".to_string()),
            Expr::Literal("1".to_string()),
        ],
    };
    let p = parse_text("POINT(0.5 0.5)").unwrap();
    assert!(matches!(spatial_op(&p, &b, "s_within"), Ok(Expr::Bool(true))));
}

#[test]
fn number_text_forms() {
    assert_eq!(parse_number(&chars("12e-1")).unwrap().to_chars().into_iter().collect::<String>(), "1.2");
    assert_eq!(parse_number(&chars("+7")).unwrap(), Number { mantissa: 7, scale: 0 });
    assert!(parse_number(&chars("1e")).is_none());
    assert!(parse_number(&chars("1..2")).is_none());
    assert!(parse_number(&chars("1e41")).is_none());
}

#[test]
fn absorbing_literal_decides() {
    let bad = Expr::Operation { op: "like".to_string(), args: vec![Expr::Bool(true)] };
    let e = Expr::Operation { op: "and".to_string(), args: vec![bad, Expr::Bool(false)] };
    assert!(matches!(e.reduce(None), Ok(Expr::Bool(false))));
}

#[test]
fn filter_records() {
    let e = parse_text("x > 1").unwrap();
    let recs = vec![
        Json::Object(vec![("x".to_string(), Json::Number(Number { mantissa: 2, scale: 0 }))]),
        Json::Object(vec![("x".to_string(), Json::Number(Number { mantissa: 0, scale: 0 }))]),
        Json::Object(vec![]),
    ];
    let kept = e.filter(&recs);
    assert_eq!(kept.len(), 1);
    assert_eq!(json_text(&kept[0]), "{\"x\":2}");
}

#[test]
fn spatial_names_are_the_eight() {
    let a = parse_text("POINT(0 0)").unwrap();
    assert!(spatial_op(&a, &a, "s_intersects").is_ok());
    assert!(spatial_op(&a, &a, "intersects").is_err());
}

#[test]
fn parser_shapes() {
    let t = |s: &str| parse_text(s).unwrap().to_text().unwrap();
    assert_eq!(t("a AND b AND c"), "(a AND b AND c)");
    assert_eq!(t("a OR b OR c"), "(a OR b OR c)");
    assert_eq!(t("p AND x BETWEEN 1 AND 2"), "(p AND (x BETWEEN 1 AND 2))");
    assert_eq!(t("x BETWEEN 1 AND 2 AND q"), "((x BETWEEN 1 AND 2) AND q)");
    assert_eq!(t("a NOT IN ('b', 'c')"), "(NOT (a IN ('b', 'c')))");
    assert_eq!(t("a IS NULL"), "(a IS NULL)");
    assert!(parse_text("a = 1 b = 2").is_err());
}
