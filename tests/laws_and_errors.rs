use wkt::geo::{
    g_geom_to_w_geom, g_polygon_to_w_polygon, g_rect_to_w_polygon, g_triangle_to_w_polygon,
    GeoCoord, GeoGeometry, GeoGeometryCollection, GeoLine, GeoLineString, GeoPoint, GeoPolygon,
    GeoRect, GeoTriangle,
};
use wkt::parser::Kind;
use wkt::{
    Coord, Dimension, Error, GeometryCollection, LineString, MultiPoint, MultiPolygon, Point,
    Polygon, TryFromWkt, Wkt,
};

fn parse(s: &str) -> Result<Wkt<f64>, &'static str> {
    Wkt::from_str(s)
}

fn c(x: f64, y: f64, z: f64) -> Coord<f64> {
    Coord { x, y, z: Some(z), m: None }
}

fn xy(x: f64, y: f64) -> Coord<f64> {
    Coord { x, y, z: None, m: None }
}

fn gc(x: f64, y: f64, z: f64) -> GeoCoord<f64> {
    GeoCoord { x, y, z: Some(z), m: None }
}

#[test]
fn keyword_case_does_not_matter() {
    assert_eq!(parse("point Z(1 2 3)"), parse("POINT Z(1 2 3)"));
    assert_eq!(parse("PoInT z(1 2 3)"), parse("POINT Z(1 2 3)"));
    assert!(parse("point Z(1 2 3)").is_ok());
}

#[test]
fn fused_marker_reads_as_separate_marker() {
    assert_eq!(parse("POINTZ(1 2 3)"), parse("POINT Z(1 2 3)"));
    assert_eq!(parse("LINESTRINGZ(1 2 3,4 5 6)"), parse("LINESTRING Z(1 2 3,4 5 6)"));
    assert_eq!(parse("POINTM(1 2 3)"), parse("POINT M(1 2 3)"));
}

#[test]
fn whitespace_between_tokens_does_not_matter() {
    let spaced = parse(" \t\r\nPOINT \t Z \n( 1\t2\r\n3 ) \n");
    assert_eq!(spaced, parse("POINT Z(1 2 3)"));
    assert_eq!(spaced, Ok(Wkt::Point(Point(Some(c(1.0, 2.0, 3.0))))));
}

#[test]
fn linearring_reads_as_linestring() {
    let ring = parse("LINEARRING Z(1 2 3, 4 5 6)");
    assert_eq!(ring, parse("LINESTRING Z(1 2 3, 4 5 6)"));
    assert_eq!(ring, Ok(Wkt::LineString(LineString(vec![c(1.0, 2.0, 3.0), c(4.0, 5.0, 6.0)]))));
}

#[test]
fn nested_collections_keep_member_counts() {
    let g = parse("GEOMETRYCOLLECTION Z(GEOMETRYCOLLECTION Z(POINT Z(1 2 3), POINT EMPTY), LINESTRING EMPTY)").unwrap();
    let outer = match g {
        Wkt::GeometryCollection(GeometryCollection(items)) => items,
        _ => unreachable!(),
    };
    assert_eq!(outer.len(), 2);
    match &outer[0] {
        Wkt::GeometryCollection(GeometryCollection(inner)) => {
            assert_eq!(inner.len(), 2);
            assert_eq!(inner[0], Wkt::Point(Point(Some(c(1.0, 2.0, 3.0)))));
            assert_eq!(inner[1], Wkt::Point(Point(None)));
        },
        _ => unreachable!(),
    }
    assert_eq!(outer[1], Wkt::LineString(LineString(vec![])));
}

#[test]
fn malformed_number_is_a_number_error() {
    assert_eq!(parse("POINT (10 20.1A)"), Err("Unable to parse input number as the desired output type"));
}

#[test]
fn missing_z_names_the_z_coordinate() {
    assert_eq!(parse("POINT Z(1 2)"), Err("Expected a number for the Z coordinate"));
}

#[test]
fn empty_multipolygon_round_trips() {
    let g = parse("MULTIPOLYGON EMPTY").unwrap();
    assert_eq!(g, Wkt::MultiPolygon(MultiPolygon(vec![])));
    assert_eq!(g.wkt_string(), "MULTIPOLYGON EMPTY");
}

#[test]
fn linestring_written_without_spaces_after_commas() {
    let g = parse("LINESTRING Z(10 20 30, 40 50 60)").unwrap();
    assert_eq!(g.wkt_string(), "LINESTRING Z(10 20 30,40 50 60)");
}

#[test]
fn collection_of_one_point() {
    let g = parse("GEOMETRYCOLLECTION Z(POINT Z(8 4 9))").unwrap();
    match g {
        Wkt::GeometryCollection(GeometryCollection(items)) => {
            assert_eq!(items.len(), 1);
            assert_eq!(items[0], Wkt::Point(Point(Some(c(8.0, 4.0, 9.0)))));
        },
        _ => unreachable!(),
    }
}

#[test]
fn written_text_parses_back() {
    let g = Wkt::GeometryCollection(GeometryCollection(vec![
        Wkt::Point(Point(None)),
        Wkt::Point(Point(Some(c(1.5, -2.25, 1e-7)))),
        Wkt::LineString(LineString(vec![])),
        Wkt::Polygon(Polygon(vec![LineString(vec![]), LineString(vec![c(1.0, 2.0, 3.0)])])),
        Wkt::MultiPoint(MultiPoint(vec![Point(Some(c(4.0, 5.0, 6.0)))])),
        Wkt::MultiPolygon(MultiPolygon(vec![Polygon(vec![]), Polygon(vec![LineString(vec![c(0.0, 0.0, 0.0)])])])),
        Wkt::GeometryCollection(GeometryCollection(vec![])),
    ]));
    let text = g.wkt_string();
    assert_eq!(
        text,
        "GEOMETRYCOLLECTION Z(POINT Z EMPTY,POINT Z(1.5 -2.25 0.0000001),LINESTRING EMPTY,\
         POLYGON Z(EMPTY,(1 2 3)),MULTIPOINT Z((4 5 6)),MULTIPOLYGON Z(EMPTY,((0 0 0))),\
         GEOMETRYCOLLECTION EMPTY)"
    );
    assert_eq!(parse(&text), Ok(g));
}

#[test]
fn empty_point_in_multi_point_is_written_empty() {
    let g: Wkt<f64> = Wkt::MultiPoint(MultiPoint(vec![Point(Some(c(1.0, 2.0, 3.0))), Point(None)]));
    assert_eq!(g.wkt_string(), "MULTIPOINT Z((1 2 3),EMPTY)");
    assert_eq!(parse("MULTIPOINT Z((1 2 3),EMPTY)"), Ok(g));
    let only_empty: Wkt<f64> = Wkt::MultiPoint(MultiPoint(vec![Point(None)]));
    assert_eq!(only_empty.wkt_string(), "MULTIPOINT(EMPTY)");
    assert_eq!(parse("MULTIPOINT(EMPTY)"), Ok(only_empty));
}

#[test]
fn every_dimension_is_read_and_written() {
    let p2 = parse("POINT (10 20.1)").unwrap();
    assert_eq!(p2, Wkt::Point(Point(Some(xy(10.0, 20.1)))));
    assert_eq!(p2.wkt_string(), "POINT(10 20.1)");
    let pm = parse("POINT M(1 2 4)").unwrap();
    assert_eq!(pm, Wkt::Point(Point(Some(Coord { x: 1.0, y: 2.0, z: None, m: Some(4.0) }))));
    assert_eq!(pm.wkt_string(), "POINT M(1 2 4)");
    assert_eq!(parse("POINTM(1 2 4)"), Ok(pm));
    let pzm = parse("point zm(1 2 3 4)").unwrap();
    assert_eq!(pzm, Wkt::Point(Point(Some(Coord { x: 1.0, y: 2.0, z: Some(3.0), m: Some(4.0) }))));
    assert_eq!(pzm.wkt_string(), "POINT ZM(1 2 3 4)");
    let texts = [
        "LINESTRING(1 2,3 4)",
        "POLYGON M((0 0 1,1 0 2,0 0 1),(5 5 5))",
        "MULTIPOINT ZM((1 2 3 4),EMPTY)",
        "MULTILINESTRING(EMPTY,(1 2))",
        "MULTIPOLYGON(((1 2)),EMPTY)",
        "GEOMETRYCOLLECTION(POINT(1 2),POINT ZM(1 2 3 4),LINESTRING M EMPTY)",
    ];
    for t in texts {
        let g = parse(t).unwrap();
        let written = g.wkt_string();
        assert_eq!(parse(&written), Ok(g));
    }
    assert_eq!(parse("LINESTRING(1 2,3 4)").unwrap().wkt_string(), "LINESTRING(1 2,3 4)");
    assert_eq!(parse("LINESTRING(1 2,3 4 5)"), Err("Missing closing parenthesis for type"));
}

#[test]
fn collection_header_follows_its_first_member() {
    let g: Wkt<f64> = Wkt::GeometryCollection(GeometryCollection(vec![
        Wkt::MultiPolygon(MultiPolygon(vec![])),
        Wkt::Point(Point(Some(c(1.0, 2.0, 3.0)))),
    ]));
    assert_eq!(g.wkt_string(), "GEOMETRYCOLLECTION(MULTIPOLYGON EMPTY,POINT Z(1 2 3))");
    assert_eq!(g.dim(), Dimension::XY);
}

#[test]
fn multi_point_reads_bare_and_parenthesized_points() {
    let a = parse("MULTIPOINT Z((1 2 3),(4 5 6))");
    assert_eq!(a, parse("MULTIPOINT Z(1 2 3, 4 5 6)"));
    assert_eq!(
        a,
        Ok(Wkt::MultiPoint(MultiPoint(vec![Point(Some(c(1.0, 2.0, 3.0))), Point(Some(c(4.0, 5.0, 6.0)))])))
    );
}

#[test]
fn text_after_the_geometry_is_not_read() {
    assert_eq!(parse("POINT Z(1 2 3) @ 1.2.3"), parse("POINT Z(1 2 3)"));
}

#[test]
fn every_parse_error_has_its_message() {
    assert_eq!(parse(""), Err("Invalid WKT format"));
    assert_eq!(parse("(1 2 3)"), Err("Invalid WKT format"));
    assert_eq!(parse("PINT Z(1 2 3)"), Err("Invalid type encountered"));
    assert_eq!(parse("POINT X(1 2 3)"), Err("Unexpected word before open paren"));
    assert_eq!(parse("POINT"), Err("End of stream"));
    assert_eq!(parse("POINT Z 1 2 3"), Err("Missing open parenthesis for type"));
    assert_eq!(parse("POINT Z(1 2 3"), Err("Missing closing parenthesis for type"));
    assert_eq!(parse("POINT Z(1 2 3 4)"), Err("Missing closing parenthesis for type"));
    assert_eq!(parse("POINT Z()"), Err("Expected a number for the X coordinate"));
    assert_eq!(parse("POINT Z(1)"), Err("Expected a number for the Y coordinate"));
    assert_eq!(parse("POINT (1 2 3)"), Err("Missing closing parenthesis for type"));
    assert_eq!(parse("POINT M(1 2)"), Err("Expected a number for the M coordinate"));
    assert_eq!(parse("POINT ZM(1 2 3)"), Err("Expected a number for the M coordinate"));
    assert_eq!(parse("GEOMETRYCOLLECTION Z(1 2 3)"), Err("Expected a word in GEOMETRYCOLLECTION"));
    assert_eq!(parse("POINT Z(1 2 3 @)"), Err("Encountered an invalid character"));
    assert_eq!(parse("POINT Z(1 2 x3)"), Err("Expected a number for the Z coordinate"));
}

#[test]
fn collections_nest_up_to_the_limit() {
    let nest = |n: usize| {
        let mut s = String::new();
        for _ in 0..n {
            s.push_str("GEOMETRYCOLLECTION(");
        }
        s.push_str("POINT Z(1 2 3)");
        for _ in 0..n {
            s.push(')');
        }
        s
    };
    assert!(parse(&nest(128)).is_ok());
    assert_eq!(parse(&nest(129)), Err("Geometry collections are nested too deeply"));
}

#[test]
fn integer_coordinates_parse_and_write() {
    let g: Wkt<i64> = Wkt::from_str("POINT Z(1 -2 3)").unwrap();
    assert_eq!(g, Wkt::Point(Point(Some(Coord { x: 1, y: -2, z: Some(3), m: None }))));
    assert_eq!(g.wkt_string(), "POINT Z(1 -2 3)");
    assert_eq!(Wkt::<i64>::from_str("POINT Z(1 2.5 3)"), Err("Unable to parse input number as the desired output type"));
}

#[test]
fn dimension_of_geometries() {
    assert_eq!(Wkt::<f64>::Point(Point(None)).dim(), Dimension::XYZ);
    assert_eq!(Wkt::<f64>::MultiPolygon(MultiPolygon(vec![])).dim(), Dimension::XY);
    assert_eq!(Wkt::Polygon(Polygon(vec![LineString(vec![]), LineString(vec![c(1.0, 2.0, 3.0)])])).dim(), Dimension::XYZ);
    assert_eq!(Wkt::<f64>::Polygon(Polygon(vec![LineString(vec![])])).dim(), Dimension::XY);
    assert_eq!(parse("POLYGON(EMPTY)").unwrap().wkt_string(), "POLYGON(EMPTY)");
}

#[test]
fn read_as_requested_kind() {
    assert_eq!(Point::<f64>::try_from_wkt_str("POINT Z(1 2 3)"), Ok(Point(Some(c(1.0, 2.0, 3.0)))));
    assert_eq!(
        LineString::<f64>::try_from_wkt_str("POINT Z(1 2 3)"),
        Err(Error::MismatchedGeometry { expected: "LineString", found: "Point" })
    );
    assert_eq!(
        GeometryCollection::<f64>::try_from_wkt_str("GeomColl(POINT Z(1 2 3))"),
        Err(Error::InvalidWKT("Invalid type encountered"))
    );
    let collection = GeometryCollection::<f64>::try_from_wkt_str("GeometryCollection Z(POINT Z(1 2 3))").unwrap();
    assert_eq!(collection.0.len(), 1);
    let first = collection.0.into_iter().next().unwrap();
    let point = <Point<f64> as TryFromWkt<f64>>::try_from_wkt(first).unwrap();
    assert_eq!(point.try_into_coord().unwrap().y, 2.0);
    assert_eq!(Point::<f64>(None).try_into_coord(), Err(Error::PointConversionError));
    assert_eq!(Wkt::<f64>::Polygon(Polygon(vec![])).kind(), Kind::Polygon);
}

#[test]
fn geo_shaped_geometries_convert() {
    let poly = GeoPolygon {
        exterior: GeoLineString(vec![]),
        interiors: vec![GeoLineString(vec![gc(1.0, 2.0, 3.0)])],
    };
    assert_eq!(g_polygon_to_w_polygon(&poly), Polygon(vec![LineString(vec![c(1.0, 2.0, 3.0)])]));
    let tri = GeoTriangle(gc(0.0, 0.0, 0.0), gc(4.0, 0.0, 4.0), gc(2.0, 4.0, 2.0));
    assert_eq!(g_triangle_to_w_polygon(&tri).wkt_string(), "POLYGON Z((0 0 0,4 0 4,2 4 2,0 0 0))");
    let rect = GeoRect { min: gc(4.0, 4.0, 1.0), max: gc(8.0, 8.0, 9.0) };
    assert_eq!(g_rect_to_w_polygon(&rect).wkt_string(), "POLYGON Z((4 4 1,4 8 1,8 8 1,8 4 1,4 4 1))");
    let g = GeoGeometry::GeometryCollection(GeoGeometryCollection(vec![
        GeoGeometry::Line(GeoLine { start: gc(1.0, 2.0, 3.0), end: gc(4.0, 5.0, 6.0) }),
        GeoGeometry::Point(GeoPoint(gc(7.0, 8.0, 9.0))),
    ]));
    assert_eq!(
        g_geom_to_w_geom(&g).wkt_string(),
        "GEOMETRYCOLLECTION Z(LINESTRING Z(1 2 3,4 5 6),POINT Z(7 8 9))"
    );
}

#[test]
fn bounded_writing_refuses_too_deep_collections() {
    let nest = |n: usize| {
        let mut g: Wkt<f64> = Wkt::Point(Point(Some(c(1.0, 2.0, 3.0))));
        for _ in 0..n {
            g = Wkt::GeometryCollection(GeometryCollection(vec![g]));
        }
        g
    };
    let ok = nest(128);
    let text = ok.try_wkt_string().unwrap();
    assert_eq!(parse(&text), Ok(ok));
    assert_eq!(nest(129).try_wkt_string(), None);
}
