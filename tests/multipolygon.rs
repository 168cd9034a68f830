use wkt::{Coord, LineString, MultiPolygon, Polygon, Wkt};

#[test]
fn basic_multipolygon() {
    let wkt: Wkt<f64> = Wkt::from_str("MULTIPOLYGON Z(((8 4 6)), ((4 0 9)))")
        .ok()
        .unwrap();
    let polygons = match wkt {
        Wkt::MultiPolygon(MultiPolygon(polygons)) => polygons,
        _ => unreachable!(),
    };
    assert_eq!(2, polygons.len());
}

#[test]
fn write_empty_multipolygon() {
    let multipolygon: MultiPolygon<f64> = MultiPolygon(vec![]);

    assert_eq!("MULTIPOLYGON EMPTY", multipolygon.wkt_string());
}

#[test]
fn write_multipolygon() {
    let multipolygon = MultiPolygon(vec![
        Polygon(vec![
            LineString(vec![
                Coord { x: 0., y: 0., z: Some(0.), m: None },
                Coord { x: 20., y: 40., z: Some(60.), m: None },
                Coord { x: 40., y: 0., z: Some(-40.), m: None },
                Coord { x: 0., y: 0., z: Some(0.), m: None },
            ]),
            LineString(vec![
                Coord { x: 5., y: 5., z: Some(5.), m: None },
                Coord { x: 20., y: 30., z: Some(40.), m: None },
                Coord { x: 30., y: 5., z: Some(-30.), m: None },
                Coord { x: 5., y: 5., z: Some(5.), m: None },
            ]),
        ]),
        Polygon(vec![LineString(vec![
            Coord { x: 40., y: 40., z: Some(40.), m: None },
            Coord { x: 20., y: 45., z: Some(-20.), m: None },
            Coord { x: 45., y: 30., z: Some(-45.), m: None },
            Coord { x: 40., y: 40., z: Some(40.), m: None },
        ])]),
    ]);

    assert_eq!(
        "MULTIPOLYGON Z(((0 0 0,20 40 60,40 0 -40,0 0 0),(5 5 5,20 30 40,30 5 -30,5 5 5)),((40 40 40,20 45 -20,45 30 -45,40 40 40)))",
        multipolygon.wkt_string()
    );
}
