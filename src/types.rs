//! The geometry tree that text is parsed into and written from.
use vstd::prelude::*;

verus! {

/// The coordinate arity named by a geometry header: `Z`, `M`, `ZM` or none.
#[derive(Clone, Copy, Debug, PartialEq, Eq, Structural)]
pub enum Dimension {
    XY,
    XYZ,
    XYM,
    XYZM,
}

/// A position: `x` and `y`, and the optional `z` and `m` components.
#[derive(Clone, Debug, Default, PartialEq)]
pub struct Coord<T> {
    pub x: T,
    pub y: T,
    pub z: Option<T>,
    pub m: Option<T>,
}

/// A point; `None` is the empty point.
#[derive(Clone, Debug, Default, PartialEq)]
pub struct Point<T>(pub Option<Coord<T>>);

/// An ordered sequence of coordinates.
#[derive(Clone, Debug, Default, PartialEq)]
pub struct LineString<T>(pub Vec<Coord<T>>);

/// Rings: the first is the exterior, the others are holes.
#[derive(Clone, Debug, Default, PartialEq)]
pub struct Polygon<T>(pub Vec<LineString<T>>);

#[derive(Clone, Debug, Default, PartialEq)]
pub struct MultiPoint<T>(pub Vec<Point<T>>);

#[derive(Clone, Debug, Default, PartialEq)]
pub struct MultiLineString<T>(pub Vec<LineString<T>>);

#[derive(Clone, Debug, Default, PartialEq)]
pub struct MultiPolygon<T>(pub Vec<Polygon<T>>);

/// Members of any kind, each with its own header.
#[derive(Debug, Default, PartialEq)]
pub struct GeometryCollection<T>(pub Vec<Wkt<T>>);

/// A geometry of one of the seven kinds.
#[derive(Debug, PartialEq)]
pub enum Wkt<T> {
    Point(Point<T>),
    LineString(LineString<T>),
    Polygon(Polygon<T>),
    MultiPoint(MultiPoint<T>),
    MultiLineString(MultiLineString<T>),
    MultiPolygon(MultiPolygon<T>),
    GeometryCollection(GeometryCollection<T>),
}

} // verus!

verus! {

/// The mathematical value of a geometry: sequences in place of vectors.
pub enum Shape<T> {
    Point(Option<Coord<T>>),
    LineString(Seq<Coord<T>>),
    Polygon(Seq<Seq<Coord<T>>>),
    MultiPoint(Seq<Option<Coord<T>>>),
    MultiLineString(Seq<Seq<Coord<T>>>),
    MultiPolygon(Seq<Seq<Seq<Coord<T>>>>),
    GeometryCollection(Seq<Shape<T>>),
}

/// The dimension of a coordinate: which of `z` and `m` it has.
pub open spec fn coord_dim<T>(c: Coord<T>) -> Dimension {
    match (c.z, c.m) {
        (None, None) => Dimension::XY,
        (Some(_), None) => Dimension::XYZ,
        (None, Some(_)) => Dimension::XYM,
        (Some(_), Some(_)) => Dimension::XYZM,
    }
}

pub open spec fn has_z(d: Dimension) -> bool {
    d == Dimension::XYZ || d == Dimension::XYZM
}

pub open spec fn has_m(d: Dimension) -> bool {
    d == Dimension::XYM || d == Dimension::XYZM
}

pub open spec fn rings_view<T>(v: Seq<LineString<T>>) -> Seq<Seq<Coord<T>>> {
    v.map_values(|l: LineString<T>| l.0@)
}

pub open spec fn polygon_shape<T>(p: Polygon<T>) -> Seq<Seq<Coord<T>>> {
    rings_view(p.0@)
}

pub open spec fn points_view<T>(v: Seq<Point<T>>) -> Seq<Option<Coord<T>>> {
    v.map_values(|p: Point<T>| p.0)
}

pub open spec fn polygons_view<T>(v: Seq<Polygon<T>>) -> Seq<Seq<Seq<Coord<T>>>> {
    v.map_values(|p: Polygon<T>| polygon_shape(p))
}

pub open spec fn shape_of<T>(g: Wkt<T>) -> Shape<T>
    decreases g,
{
    match g {
        Wkt::Point(p) => Shape::Point(p.0),
        Wkt::LineString(l) => Shape::LineString(l.0@),
        Wkt::Polygon(p) => Shape::Polygon(polygon_shape(p)),
        Wkt::MultiPoint(m) => Shape::MultiPoint(points_view(m.0@)),
        Wkt::MultiLineString(m) => Shape::MultiLineString(rings_view(m.0@)),
        Wkt::MultiPolygon(m) => Shape::MultiPolygon(polygons_view(m.0@)),
        Wkt::GeometryCollection(c) => Shape::GeometryCollection(
            Seq::new(c.0@.len(), |i: int| if 0 <= i < c.0@.len() { shape_of(c.0@[i]) } else { arbitrary() }),
        ),
    }
}

} // verus!
