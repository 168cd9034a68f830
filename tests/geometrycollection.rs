use wkt::{Coord, GeometryCollection, LineString, MultiLineString, MultiPoint, MultiPolygon, Point, Polygon, Wkt};

#[test]
fn basic_geometrycollection() {
    let wkt: Wkt<f64> = Wkt::from_str("GEOMETRYCOLLECTION Z(POINT Z(8 4 9)))")
        .ok()
        .unwrap();
    let items = match wkt {
        Wkt::GeometryCollection(GeometryCollection(items)) => items,
        _ => unreachable!(),
    };
    assert_eq!(1, items.len());
}

#[test]
fn complex_geometrycollection() {
    let wkt: Wkt<f64> = Wkt::from_str("GEOMETRYCOLLECTION Z(POINT Z(8 4 -8),LINESTRING Z(4 6 9,7 10 2)))")
        .ok()
        .unwrap();
    let items = match wkt {
        Wkt::GeometryCollection(GeometryCollection(items)) => items,
        _ => unreachable!(),
    };
    assert_eq!(2, items.len());
}

#[test]
fn write_empty_geometry_collection() {
    let geometry_collection: GeometryCollection<f64> = GeometryCollection(vec![]);

    assert_eq!(
        "GEOMETRYCOLLECTION EMPTY",
        geometry_collection.wkt_string()
    );
}

#[test]
fn write_geometry_collection() {
    let point = Wkt::Point(Point(Some(Coord { x: 10., y: 20., z: Some(30.), m: None })));

    let multipoint = Wkt::MultiPoint(MultiPoint(vec![
        Point(Some(Coord { x: 10.1, y: 20.2, z: Some(30.3), m: None })),
        Point(Some(Coord { x: 30.3, y: 40.4, z: Some(50.5), m: None })),
    ]));

    let linestring = Wkt::LineString(LineString(vec![
        Coord { x: 10., y: 20., z: Some(30.), m: None },
        Coord { x: 30., y: 40., z: Some(50.), m: None },
    ]));

    let polygon = Wkt::Polygon(Polygon(vec![LineString(vec![
        Coord { x: 0., y: 0., z: Some(0.), m: None },
        Coord { x: 20., y: 40., z: Some(60.), m: None },
        Coord { x: 40., y: 0., z: Some(-40.), m: None },
        Coord { x: 0., y: 0., z: Some(0.), m: None },
    ])]));

    let multilinestring = Wkt::MultiLineString(MultiLineString(vec![
        LineString(vec![
            Coord { x: 10.1, y: 20.2, z: Some(30.3), m: None },
            Coord { x: 30.3, y: 40.4, z: Some(50.5), m: None },
        ]),
        LineString(vec![
            Coord { x: 50.5, y: 60.6, z: Some(70.7), m: None },
            Coord { x: 70.7, y: 80.8, z: Some(90.9), m: None },
        ]),
    ]));

    let multipolygon = Wkt::MultiPolygon(MultiPolygon(vec![
        Polygon(vec![LineString(vec![
            Coord { x: 0., y: 0., z: Some(0.), m: None },
            Coord { x: 20., y: 40., z: Some(60.), m: None },
            Coord { x: 40., y: 0., z: Some(-40.), m: None },
            Coord { x: 0., y: 0., z: Some(0.), m: None },
        ])]),
        Polygon(vec![LineString(vec![
            Coord { x: 40., y: 40., z: Some(40.), m: None },
            Coord { x: 20., y: 45., z: Some(-20.), m: None },
            Coord { x: 45., y: 30., z: Some(-45.), m: None },
            Coord { x: 40., y: 40., z: Some(40.), m: None },
        ])]),
    ]));

    let geometrycollection = GeometryCollection(vec![
        point,
        multipoint,
        linestring,
        polygon,
        multilinestring,
        multipolygon,
    ]);

    assert_eq!(
        "GEOMETRYCOLLECTION Z(\
         POINT Z(10 20 30),\
         MULTIPOINT Z((10.1 20.2 30.3),(30.3 40.4 50.5)),\
         LINESTRING Z(10 20 30,30 40 50),\
         POLYGON Z((0 0 0,20 40 60,40 0 -40,0 0 0)),\
         MULTILINESTRING Z((10.1 20.2 30.3,30.3 40.4 50.5),(50.5 60.6 70.7,70.7 80.8 90.9)),\
         MULTIPOLYGON Z(((0 0 0,20 40 60,40 0 -40,0 0 0)),((40 40 40,20 45 -20,45 30 -45,40 40 40)))\
         )",
        geometrycollection.wkt_string()
    );
}
