use wkt::{Coord, Point, Wkt};

#[test]
fn basic_point() {
    let wkt = Wkt::from_str("POINT Z(10 -20 30)").ok().unwrap();
    let coord = match wkt {
        Wkt::Point(Point(Some(coord))) => coord,
        _ => unreachable!(),
    };
    assert_eq!(10.0, coord.x);
    assert_eq!(-20.0, coord.y);
    assert_eq!(Some(30.0), coord.z);
}

#[test]
fn basic_point_z() {
    let wkt = Wkt::from_str("POINT Z(-117 33 10)").ok().unwrap();
    let coord = match wkt {
        Wkt::Point(Point(Some(coord))) => coord,
        _ => unreachable!(),
    };
    assert_eq!(-117.0, coord.x);
    assert_eq!(33.0, coord.y);
    assert_eq!(Some(10.0), coord.z);
}

#[test]
fn basic_point_z_one_word() {
    let wkt = Wkt::from_str("POINTZ(-117 33 10)").ok().unwrap();
    let coord = match wkt {
        Wkt::Point(Point(Some(coord))) => coord,
        _ => unreachable!(),
    };
    assert_eq!(-117.0, coord.x);
    assert_eq!(33.0, coord.y);
    assert_eq!(Some(10.0), coord.z);
}

#[test]
fn basic_point_whitespace() {
    let wkt: Wkt<f64> = Wkt::from_str(" \n\t\rPOINT \n\t\rZ( \n\r\t10 \n\t\r-20 \n\t\r30 \n\t\r) \n\t\r")
        .ok()
        
        .unwrap();
    let coord = match wkt {
        Wkt::Point(Point(Some(coord))) => coord,
        _ => unreachable!(),
    };
    assert_eq!(10.0, coord.x);
    assert_eq!(-20.0, coord.y);
    assert_eq!(Some(30.0), coord.z);
}

#[test]
fn invalid_points() {
    <Wkt<f64>>::from_str("POINT ()").err().unwrap();
    <Wkt<f64>>::from_str("POINT (10)").err().unwrap();
    <Wkt<f64>>::from_str("POINT 10").err().unwrap();
}

#[test]
fn write_empty_point() {
    let point: Point<f64> = Point(None);

    assert_eq!("POINT Z EMPTY", point.wkt_string());
}

#[test]
fn write_3d_point() {
    let point = Point(Some(Coord { x: 10.12345, y: 20.67891, z: Some(30.63831), m: None }));

    assert_eq!("POINT Z(10.12345 20.67891 30.63831)", point.wkt_string());
}

#[test]
fn write_point_with_z_coord() {
    let point = Point(Some(Coord { x: 10.12345, y: 20.67891, z: Some(-32.56455), m: None }));

    assert_eq!("POINT Z(10.12345 20.67891 -32.56455)", point.wkt_string());
}
