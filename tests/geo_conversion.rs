use wkt::geo::{
    GeoCoord, GeoGeometry, GeoGeometryCollection, GeoLineString, GeoMultiLineString,
    GeoMultiPoint, GeoMultiPolygon, GeoPoint, GeoPolygon,
};
use wkt::{
    Coord, GeometryCollection, LineString, MultiLineString, MultiPoint, MultiPolygon, Point,
    Polygon, Wkt,
};

fn w(x: f64, y: f64, z: f64) -> Coord<f64> {
    Coord { x, y, z: Some(z), m: None }
}

fn g(x: f64, y: f64, z: f64) -> GeoCoord<f64> {
    GeoCoord { x, y, z: Some(z), m: None }
}

fn g_line(cs: &[(f64, f64, f64)]) -> GeoLineString<f64> {
    GeoLineString(cs.iter().map(|&(x, y, z)| g(x, y, z)).collect())
}

fn w_line(cs: &[(f64, f64, f64)]) -> LineString<f64> {
    LineString(cs.iter().map(|&(x, y, z)| w(x, y, z)).collect())
}

fn convert(wkt: Wkt<f64>) -> GeoGeometry<f64> {
    GeoGeometry::try_from_wkt(&wkt).unwrap()
}

#[test]
fn convert_single_item_wkt() {
    let wkt = Wkt::Point(Point(Some(Coord { x: 1.0, y: 2.0, z: Some(3.0), m: None })));
    let converted = convert(wkt);
    let g_point = GeoPoint(g(1.0, 2.0, 3.0));
    assert_eq!(converted, GeoGeometry::Point(g_point));
}

#[test]
fn convert_empty_point() {
    let point: Point<f64> = Point(None);
    let res = GeoPoint::try_from_point(&point);
    assert!(res.is_err());
}

#[test]
fn convert_point() {
    let point = Wkt::Point(Point(Some(Coord { x: 10., y: 20., z: Some(30.), m: None })));
    let g_point = GeoPoint(g(10., 20., 30.));
    assert_eq!(GeoGeometry::Point(g_point), convert(point));
}

#[test]
fn convert_empty_linestring() {
    let w_linestring = Wkt::LineString(LineString(vec![]));
    let g_linestring: GeoLineString<f64> = GeoLineString(vec![]);
    assert_eq!(GeoGeometry::LineString(g_linestring), convert(w_linestring));
}

#[test]
fn convert_linestring() {
    let w_linestring = Wkt::LineString(w_line(&[(10., 20., 30.), (40., 50., 60.)]));
    let g_linestring = g_line(&[(10., 20., 30.), (40., 50., 60.)]);
    assert_eq!(GeoGeometry::LineString(g_linestring), convert(w_linestring));
}

#[test]
fn convert_empty_polygon() {
    let w_polygon = Wkt::Polygon(Polygon(vec![]));
    let g_polygon = GeoPolygon { exterior: GeoLineString(vec![]), interiors: vec![] };
    assert_eq!(GeoGeometry::Polygon(g_polygon), convert(w_polygon));
}

#[test]
fn convert_polygon() {
    let w_polygon = Wkt::Polygon(Polygon(vec![
        w_line(&[(0., 0., 0.), (20., 40., 60.), (40., 0., -40.), (0., 0., 0.)]),
        w_line(&[(5., 5., 5.), (20., 30., 40.), (30., 5., -30.), (5., 5., 5.)]),
    ]));
    let g_polygon = GeoPolygon {
        exterior: g_line(&[(0., 0., 0.), (20., 40., 60.), (40., 0., -40.), (0., 0., 0.)]),
        interiors: vec![g_line(&[(5., 5., 5.), (20., 30., 40.), (30., 5., -30.), (5., 5., 5.)])],
    };
    assert_eq!(GeoGeometry::Polygon(g_polygon), convert(w_polygon));
}

#[test]
fn convert_empty_multilinestring() {
    let w_multilinestring = Wkt::MultiLineString(MultiLineString(vec![]));
    let g_multilinestring: GeoMultiLineString<f64> = GeoMultiLineString(vec![]);
    assert_eq!(GeoGeometry::MultiLineString(g_multilinestring), convert(w_multilinestring));
}

#[test]
fn convert_multilinestring() {
    let w_multilinestring = Wkt::MultiLineString(MultiLineString(vec![
        w_line(&[(10., 20., 30.), (40., 50., 60.)]),
        w_line(&[(70., 80., 90.), (100., 110., 120.)]),
    ]));
    let g_multilinestring = GeoMultiLineString(vec![
        g_line(&[(10., 20., 30.), (40., 50., 60.)]),
        g_line(&[(70., 80., 90.), (100., 110., 120.)]),
    ]);
    assert_eq!(GeoGeometry::MultiLineString(g_multilinestring), convert(w_multilinestring));
}

#[test]
fn convert_empty_multipoint() {
    let w_multipoint = Wkt::MultiPoint(MultiPoint(vec![]));
    let g_multipoint: GeoMultiPoint<f64> = GeoMultiPoint(vec![]);
    assert_eq!(GeoGeometry::MultiPoint(g_multipoint), convert(w_multipoint));
}

#[test]
fn convert_multipoint() {
    let w_multipoint = Wkt::MultiPoint(MultiPoint(vec![
        Point(Some(Coord { x: 10., y: 20., z: Some(25.), m: None })),
        Point(Some(Coord { x: 30., y: 40., z: Some(45.), m: None })),
    ]));
    let g_multipoint = GeoMultiPoint(vec![GeoPoint(g(10., 20., 25.)), GeoPoint(g(30., 40., 45.))]);
    assert_eq!(GeoGeometry::MultiPoint(g_multipoint), convert(w_multipoint));
}

#[test]
fn convert_empty_multipolygon() {
    let w_multipolygon = Wkt::MultiPolygon(MultiPolygon(vec![]));
    let g_multipolygon: GeoMultiPolygon<f64> = GeoMultiPolygon(vec![]);
    assert_eq!(GeoGeometry::MultiPolygon(g_multipolygon), convert(w_multipolygon));
}

#[test]
fn convert_multipolygon() {
    let w_multipolygon = Wkt::MultiPolygon(MultiPolygon(vec![
        Polygon(vec![
            w_line(&[(0., 0., 0.), (20., 40., -20.), (40., 0., -40.), (0., 0., 0.)]),
            w_line(&[(5., 5., 5.), (20., 30., -20.), (30., 5., -30.), (5., 5., 5.)]),
        ]),
        Polygon(vec![w_line(&[(40., 40., 40.), (20., 45., -20.), (45., 30., -45.), (40., 40., 40.)])]),
    ]));
    let g_multipolygon = GeoMultiPolygon(vec![
        GeoPolygon {
            exterior: g_line(&[(0., 0., 0.), (20., 40., -20.), (40., 0., -40.), (0., 0., 0.)]),
            interiors: vec![g_line(&[(5., 5., 5.), (20., 30., -20.), (30., 5., -30.), (5., 5., 5.)])],
        },
        GeoPolygon {
            exterior: g_line(&[(40., 40., 40.), (20., 45., -20.), (45., 30., -45.), (40., 40., 40.)]),
            interiors: vec![],
        },
    ]);
    assert_eq!(GeoGeometry::MultiPolygon(g_multipolygon), convert(w_multipolygon));
}

#[test]
fn convert_empty_geometrycollection() {
    let w_geometrycollection = Wkt::GeometryCollection(GeometryCollection(vec![]));
    let g_geometrycollection: GeoGeometryCollection<f64> = GeoGeometryCollection(vec![]);
    assert_eq!(GeoGeometry::GeometryCollection(g_geometrycollection), convert(w_geometrycollection));
}

#[test]
fn convert_geometrycollection() {
    let w_point = Wkt::Point(Point(Some(Coord { x: 10., y: 20., z: Some(30.), m: None })));
    let w_linestring = Wkt::LineString(w_line(&[(10., 20., 30.), (40., 50., 60.)]));
    let w_polygon = Wkt::Polygon(Polygon(vec![w_line(&[(0., 0., 0.), (20., 40., 60.), (40., 0., -40.), (0., 0., 0.)])]));
    let w_multilinestring = Wkt::MultiLineString(MultiLineString(vec![
        w_line(&[(10., 20., 30.), (40., 50., 60.)]),
        w_line(&[(70., 80., 90.), (100., 110., 120.)]),
    ]));
    let w_multipoint = Wkt::MultiPoint(MultiPoint(vec![
        Point(Some(Coord { x: 10., y: 20., z: Some(30.), m: None })),
        Point(Some(Coord { x: 40., y: 50., z: Some(60.), m: None })),
    ]));
    let w_multipolygon = Wkt::MultiPolygon(MultiPolygon(vec![
        Polygon(vec![w_line(&[(0., 0., 0.), (20., 40., 60.), (40., 0., -40.), (0., 0., 0.)])]),
        Polygon(vec![w_line(&[(40., 40., 40.), (20., 45., -20.), (45., 30., -45.), (40., 40., 40.)])]),
    ]));
    let w_geometrycollection = Wkt::GeometryCollection(GeometryCollection(vec![
        w_point,
        w_multipoint,
        w_linestring,
        w_multilinestring,
        w_polygon,
        w_multipolygon,
    ]));

    let g_point = GeoPoint(g(10., 20., 30.));
    let g_linestring = g_line(&[(10., 20., 30.), (40., 50., 60.)]);
    let g_polygon = GeoPolygon {
        exterior: g_line(&[(0., 0., 0.), (20., 40., 60.), (40., 0., -40.), (0., 0., 0.)]),
        interiors: vec![],
    };
    let g_multilinestring = GeoMultiLineString(vec![
        g_line(&[(10., 20., 30.), (40., 50., 60.)]),
        g_line(&[(70., 80., 90.), (100., 110., 120.)]),
    ]);
    let g_multipoint = GeoMultiPoint(vec![GeoPoint(g(10., 20., 30.)), GeoPoint(g(40., 50., 60.))]);
    let g_multipolygon = GeoMultiPolygon(vec![
        GeoPolygon {
            exterior: g_line(&[(0., 0., 0.), (20., 40., 60.), (40., 0., -40.), (0., 0., 0.)]),
            interiors: vec![],
        },
        GeoPolygon {
            exterior: g_line(&[(40., 40., 40.), (20., 45., -20.), (45., 30., -45.), (40., 40., 40.)]),
            interiors: vec![],
        },
    ]);
    let g_geometrycollection = GeoGeometryCollection(vec![
        GeoGeometry::Point(g_point),
        GeoGeometry::MultiPoint(g_multipoint),
        GeoGeometry::LineString(g_linestring),
        GeoGeometry::MultiLineString(g_multilinestring),
        GeoGeometry::Polygon(g_polygon),
        GeoGeometry::MultiPolygon(g_multipolygon),
    ]);
    assert_eq!(GeoGeometry::GeometryCollection(g_geometrycollection), convert(w_geometrycollection));
}

#[test]
fn empty_point_converts_to_empty_multi_point_and_fails_in_one() {
    assert_eq!(convert(Wkt::Point(Point(None))), GeoGeometry::MultiPoint(GeoMultiPoint(vec![])));
    let with_empty = Wkt::MultiPoint(MultiPoint(vec![Point(Some(w(1., 2., 3.))), Point(None)]));
    assert_eq!(GeoGeometry::try_from_wkt(&with_empty), Err(wkt::Error::PointConversionError));
}
