use wkt::{Coord, LineString, MultiPolygon, Point, Wkt};

#[test]
fn empty_string() {
    let res: Result<Wkt<f64>, _> = Wkt::from_str("");
    assert!(res.is_err());
}

#[test]
fn empty_items() {
    let wkt: Wkt<f64> = Wkt::from_str("POINT EMPTY").ok().unwrap();
    match wkt {
        Wkt::Point(Point(None)) => (),
        _ => unreachable!(),
    };

    let wkt: Wkt<f64> = Wkt::from_str("MULTIPOLYGON EMPTY").ok().unwrap();
    match wkt {
        Wkt::MultiPolygon(MultiPolygon(polygons)) => assert_eq!(polygons.len(), 0),
        _ => unreachable!(),
    };
}

#[test]
fn lowercase_point() {
    let wkt: Wkt<f64> = Wkt::from_str("point EMPTY").ok().unwrap();
    match wkt {
        Wkt::Point(Point(None)) => (),
        _ => unreachable!(),
    };
}

#[test]
fn invalid_number() {
    let msg = <Wkt<f64>>::from_str("POINT (10 20.1A)").unwrap_err();
    assert_eq!(
        "Unable to parse input number as the desired output type",
        msg
    );
}

#[test]
fn test_points() {
    // point(x, y, z)
    let wkt = <Wkt<f64>>::from_str("POINT Z (10 20.1 5)").ok().unwrap();
    match wkt {
        Wkt::Point(Point(Some(coord))) => {
            assert_eq!(coord.x, 10.0);
            assert_eq!(coord.y, 20.1);
            assert_eq!(coord.z, Some(5.0));
        }
        _ => panic!("excepted to be parsed as a POINT"),
    }

    // point(x, y, z)
    let wkt = <Wkt<f64>>::from_str("POINT Z (10 20.1 80)").ok().unwrap();
    match wkt {
        Wkt::Point(Point(Some(coord))) => {
            assert_eq!(coord.x, 10.0);
            assert_eq!(coord.y, 20.1);
            assert_eq!(coord.z, Some(80.0));
        }
        _ => panic!("excepted to be parsed as a POINT"),
    }

    // point(x, y, z)
    let wkt = <Wkt<f64>>::from_str("POINT Z (10 20.1 5)")
        .ok()
        .unwrap();
    match wkt {
        Wkt::Point(Point(Some(coord))) => {
            assert_eq!(coord.x, 10.0);
            assert_eq!(coord.y, 20.1);
            assert_eq!(coord.z, Some(5.0));
        }
        _ => panic!("excepted to be parsed as a POINT"),
    }
}

#[test]
fn support_jts_linearring() {
    let wkt: Wkt<f64> = Wkt::from_str("linearring Z(10 20 30, 40 50 60)").ok().unwrap();
    match wkt {
        Wkt::LineString(_ls) => (),
        _ => panic!("expected to be parsed as a LINESTRING"),
    };
}

#[test]
fn test_debug() {
    let g = Wkt::Point(Point(Some(Coord { x: 1.0, y: 2.0, z: Some(3.0), m: None })));
    assert_eq!(
        format!("{:?}", g),
        "Point(Point(Some(Coord { x: 1.0, y: 2.0, z: Some(3.0), m: None })))"
    );
}

#[test]
fn test_display_on_wkt() {
    let wktls: Wkt<f64> = Wkt::from_str("LINESTRING Z(10 20 30, 40 50 60)").unwrap();

    assert_eq!(wktls.wkt_string(), "LINESTRING Z(10 20 30,40 50 60)");
}
