use wkt::{Coord, LineString, MultiLineString, Wkt};

#[test]
fn basic_multilinestring() {
    let wkt: Wkt<f64> = Wkt::from_str("MULTILINESTRING Z((8 4 1, -3 0 7), (4 0 9, 6 -10 -12))")
        .ok()
        .unwrap();
    let lines = match wkt {
        Wkt::MultiLineString(MultiLineString(lines)) => lines,
        _ => unreachable!(),
    };
    assert_eq!(2, lines.len());
}

#[test]
fn write_empty_multilinestring() {
    let multilinestring: MultiLineString<f64> = MultiLineString(vec![]);

    assert_eq!("MULTILINESTRING EMPTY", multilinestring.wkt_string());
}

#[test]
fn write_multilinestring() {
    let multilinestring = MultiLineString(vec![
        LineString(vec![
            Coord { x: 10.1, y: 20.2, z: Some(30.3), m: None },
            Coord { x: 30.3, y: 40.4, z: Some(50.5), m: None },
        ]),
        LineString(vec![
            Coord { x: 50.5, y: 60.6, z: Some(70.7), m: None },
            Coord { x: 70.7, y: 80.8, z: Some(90.9), m: None },
        ]),
    ]);

    assert_eq!(
        "MULTILINESTRING Z((10.1 20.2 30.3,30.3 40.4 50.5),(50.5 60.6 70.7,70.7 80.8 90.9))",
        multilinestring.wkt_string()
    );
}
