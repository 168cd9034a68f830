use wkt::geo::{g_point_to_w_point, GeoCoord, GeoPoint};
use wkt::{Coord, Error, GeometryCollection, Point, TryFromWkt};

#[test]
fn geom_collection_from_wkt_str() {
    // geometry collections have some special handling vs. other geometries, so we test them separately.
    let collection = GeometryCollection::<f64>::try_from_wkt_str("GeometryCollection Z(POINT Z(1 2 3))").unwrap();
    let first = collection.0.into_iter().next().unwrap();
    let point: Point<_> = <Point<f64> as TryFromWkt<f64>>::try_from_wkt(first).unwrap();
    assert_eq!(point.try_into_coord().unwrap().y, 2.0);
}

#[test]
fn geom_collection_from_invalid_wkt_str() {
    // geometry collections have some special handling vs. other geometries, so we test them separately.
    let err = GeometryCollection::<f64>::try_from_wkt_str("GeomColl(POINT Z(1 2 3))").unwrap_err();
    match err {
        Error::InvalidWKT(err_text) => assert_eq!(err_text, "Invalid type encountered"),
        e => panic!("Not the error we expected. Found: {:?}", e),
    }
}

#[test]
fn from_invalid_wkt_str() {
    let a_point_too_many = Point::<f64>::try_from_wkt_str("PINT Z(1 2 3)");
    let err = a_point_too_many.unwrap_err();
    match err {
        Error::InvalidWKT(err_text) => assert_eq!(err_text, "Invalid type encountered"),
        e => panic!("Not the error we expected. Found: {:?}", e),
    }
}

#[test]
fn integer_geometry() {
    let point: Point<f32> = Point::try_from_wkt_str("POINT Z(1 2 3)").unwrap();
    assert_eq!(point, Point(Some(Coord { x: 1.0, y: 2.0, z: Some(3.0), m: None })));

    let wkt_string = point.wkt_string();
    assert_eq!("POINT Z(1 2 3)", &wkt_string);
}

#[test]
fn float_geom() {
    let point = g_point_to_w_point(&GeoPoint(GeoCoord { x: 1f32, y: 2f32, z: Some(3f32), m: None }));
    assert_eq!("POINT Z(1 2 3)", &point.wkt_string());

    let point = g_point_to_w_point(&GeoPoint(GeoCoord { x: 1.1, y: 2.9, z: Some(3.8), m: None }));
    assert_eq!("POINT Z(1.1 2.9 3.8)", &point.wkt_string());
}

#[test]
fn geom_collection_from_other_wkt_str() {
    // geometry collections have some special handling vs. other geometries, so we test them separately.
    let not_a_collection = GeometryCollection::<f64>::try_from_wkt_str("POINT Z(1 2 3)");
    let err = not_a_collection.unwrap_err();
    match err {
        Error::MismatchedGeometry { expected: "GeometryCollection", found: "Point" } => {},
        e => panic!("Not the error we expected. Found: {:?}", e),
    }
}

#[test]
fn from_other_geom_wkt_str() {
    let not_actually_a_line_string = wkt::LineString::<f64>::try_from_wkt_str("POINT Z(1 2 3)");
    let err = not_actually_a_line_string.unwrap_err();
    match err {
        Error::MismatchedGeometry { expected: "LineString", found: "Point" } => {},
        e => panic!("Not the error we expected. Found: {:?}", e),
    }
}
