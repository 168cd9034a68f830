//! Geometries in the shape of the geo-types crate, and their conversion to
//! and from the WKT tree.
//!
//! The types here hold, as plain values, what a geo-types geometry holds:
//! coordinates, point lists, a polygon's exterior ring and holes, the corners
//! of a rectangle or a triangle. Conversion keeps every coordinate and the
//! order of everything; the only choices it makes are stated on
//! [`g_polygon_to_w_polygon`], [`g_rect_to_w_polygon`],
//! [`g_triangle_to_w_polygon`] and [`geo_of`].
use vstd::prelude::*;
use crate::conversion::Error;
use crate::types::{
    points_view, polygon_shape, polygons_view, rings_view, shape_of, Coord, GeometryCollection, LineString, MultiLineString, MultiPoint,
    MultiPolygon, Point, Polygon, Shape, Wkt,
};

verus! {

#[derive(Clone, Copy, Debug, Default, PartialEq)]
pub struct GeoCoord<T> {
    pub x: T,
    pub y: T,
    pub z: Option<T>,
    pub m: Option<T>,
}

#[derive(Clone, Copy, Debug, Default, PartialEq)]
pub struct GeoPoint<T>(pub GeoCoord<T>);

/// A segment from `start` to `end`.
#[derive(Clone, Copy, Debug, PartialEq)]
pub struct GeoLine<T> {
    pub start: GeoCoord<T>,
    pub end: GeoCoord<T>,
}

#[derive(Clone, Debug, Default, PartialEq)]
pub struct GeoLineString<T>(pub Vec<GeoCoord<T>>);

#[derive(Clone, Debug, Default, PartialEq)]
pub struct GeoPolygon<T> {
    pub exterior: GeoLineString<T>,
    pub interiors: Vec<GeoLineString<T>>,
}

#[derive(Clone, Debug, Default, PartialEq)]
pub struct GeoMultiPoint<T>(pub Vec<GeoPoint<T>>);

#[derive(Clone, Debug, Default, PartialEq)]
pub struct GeoMultiLineString<T>(pub Vec<GeoLineString<T>>);

#[derive(Clone, Debug, Default, PartialEq)]
pub struct GeoMultiPolygon<T>(pub Vec<GeoPolygon<T>>);

/// An axis-aligned rectangle given by two opposite corners.
#[derive(Clone, Copy, Debug, PartialEq)]
pub struct GeoRect<T> {
    pub min: GeoCoord<T>,
    pub max: GeoCoord<T>,
}

#[derive(Clone, Copy, Debug, PartialEq)]
pub struct GeoTriangle<T>(pub GeoCoord<T>, pub GeoCoord<T>, pub GeoCoord<T>);

#[derive(Debug, Default, PartialEq)]
pub struct GeoGeometryCollection<T>(pub Vec<GeoGeometry<T>>);

#[derive(Debug, PartialEq)]
pub enum GeoGeometry<T> {
    Point(GeoPoint<T>),
    Line(GeoLine<T>),
    LineString(GeoLineString<T>),
    Polygon(GeoPolygon<T>),
    MultiPoint(GeoMultiPoint<T>),
    MultiLineString(GeoMultiLineString<T>),
    MultiPolygon(GeoMultiPolygon<T>),
    GeometryCollection(GeoGeometryCollection<T>),
    Rect(GeoRect<T>),
    Triangle(GeoTriangle<T>),
}

pub open spec fn w_coord<T>(c: GeoCoord<T>) -> Coord<T> {
    Coord { x: c.x, y: c.y, z: c.z, m: c.m }
}

pub open spec fn w_coords<T>(cs: Seq<GeoCoord<T>>) -> Seq<Coord<T>> {
    cs.map_values(|c: GeoCoord<T>| w_coord(c))
}

pub open spec fn w_points<T>(ps: Seq<GeoPoint<T>>) -> Seq<Option<Coord<T>>> {
    ps.map_values(|p: GeoPoint<T>| Some(w_coord(p.0)))
}

pub open spec fn w_lines<T>(ls: Seq<GeoLineString<T>>) -> Seq<Seq<Coord<T>>> {
    ls.map_values(|l: GeoLineString<T>| w_coords(l.0@))
}

/// The rings of a polygon: the exterior unless it is empty, then the holes.
pub open spec fn w_polygon<T>(p: GeoPolygon<T>) -> Seq<Seq<Coord<T>>> {
    if p.exterior.0@.len() == 0 {
        w_lines(p.interiors@)
    } else {
        seq![w_coords(p.exterior.0@)] + w_lines(p.interiors@)
    }
}

pub open spec fn w_polygons<T>(ps: Seq<GeoPolygon<T>>) -> Seq<Seq<Seq<Coord<T>>>> {
    ps.map_values(|p: GeoPolygon<T>| w_polygon(p))
}

/// A triangle's ring: its corners, closed by the first again.
pub open spec fn w_triangle<T>(t: GeoTriangle<T>) -> Seq<Seq<Coord<T>>> {
    seq![seq![w_coord(t.0), w_coord(t.1), w_coord(t.2), w_coord(t.0)]]
}

/// A rectangle's ring: its four corners, with the `z` and `m` of the minimum
/// one (a rectangle spans `x` and `y` only), from the
/// minimum one, closed by it again.
pub open spec fn w_rect<T>(r: GeoRect<T>) -> Seq<Seq<Coord<T>>> {
    let (a, b, z, m) = (r.min, r.max, r.min.z, r.min.m);
    seq![seq![
        Coord { x: a.x, y: a.y, z, m },
        Coord { x: a.x, y: b.y, z, m },
        Coord { x: b.x, y: b.y, z, m },
        Coord { x: b.x, y: a.y, z, m },
        Coord { x: a.x, y: a.y, z, m },
    ]]
}

/// The shape of the WKT geometry that a geometry is read as.
pub open spec fn w_geom<T>(g: GeoGeometry<T>) -> Shape<T>
    decreases g,
{
    match g {
        GeoGeometry::Point(p) => Shape::Point(Some(w_coord(p.0))),
        GeoGeometry::Line(l) => Shape::LineString(seq![w_coord(l.start), w_coord(l.end)]),
        GeoGeometry::LineString(l) => Shape::LineString(w_coords(l.0@)),
        GeoGeometry::Polygon(p) => Shape::Polygon(w_polygon(p)),
        GeoGeometry::MultiPoint(m) => Shape::MultiPoint(w_points(m.0@)),
        GeoGeometry::MultiLineString(m) => Shape::MultiLineString(w_lines(m.0@)),
        GeoGeometry::MultiPolygon(m) => Shape::MultiPolygon(w_polygons(m.0@)),
        GeoGeometry::GeometryCollection(c) => Shape::GeometryCollection(
            Seq::new(c.0@.len(), |i: int| if 0 <= i < c.0@.len() { w_geom(c.0@[i]) } else { arbitrary() }),
        ),
        GeoGeometry::Rect(r) => Shape::Polygon(w_rect(r)),
        GeoGeometry::Triangle(t) => Shape::Polygon(w_triangle(t)),
    }
}

/// The coordinate with the same components.
pub fn g_point_to_w_coord<T: Copy>(g_point: &GeoCoord<T>) -> (r: Coord<T>)
    ensures
        r == w_coord(*g_point),
{
    Coord { x: g_point.x, y: g_point.y, z: g_point.z, m: g_point.m }
}

pub fn g_point_to_w_point<T: Copy>(g_point: &GeoPoint<T>) -> (r: Point<T>)
    ensures
        r.0 == Some(w_coord(g_point.0)),
{
    Point(Some(g_point_to_w_coord(&g_point.0)))
}

pub fn g_points_to_w_coords<T: Copy>(g_points: &[GeoCoord<T>]) -> (r: Vec<Coord<T>>)
    ensures
        r@ == w_coords(g_points@),
{
    let mut v: Vec<Coord<T>> = Vec::new();
    let mut i: usize = 0;
    while i < g_points.len()
        invariant
            i <= g_points@.len(),
            v@ == w_coords(g_points@.take(i as int)),
        decreases g_points@.len() - i,
    {
        v.push(g_point_to_w_coord(&g_points[i]));
        assert(w_coords(g_points@.take(i + 1)) =~= w_coords(g_points@.take(i as int)).push(w_coord(g_points@[i as int])));
        i = i + 1;
    }
    assert(g_points@.take(i as int) =~= g_points@);
    v
}

pub fn g_points_to_w_points<T: Copy>(g_points: &[GeoPoint<T>]) -> (r: Vec<Point<T>>)
    ensures
        crate::types::points_view(r@) == w_points(g_points@),
{
    let mut v: Vec<Point<T>> = Vec::new();
    let mut i: usize = 0;
    while i < g_points.len()
        invariant
            i <= g_points@.len(),
            crate::types::points_view(v@) == w_points(g_points@.take(i as int)),
        decreases g_points@.len() - i,
    {
        let ghost old_v = v@;
        v.push(g_point_to_w_point(&g_points[i]));
        assert(crate::types::points_view(v@) =~= crate::types::points_view(old_v).push(Some(w_coord(g_points@[i as int].0))));
        assert(w_points(g_points@.take(i + 1)) =~= w_points(g_points@.take(i as int)).push(Some(w_coord(g_points@[i as int].0))));
        i = i + 1;
    }
    assert(g_points@.take(i as int) =~= g_points@);
    v
}

pub fn g_points_to_w_linestring<T: Copy>(g_coords: &[GeoCoord<T>]) -> (r: LineString<T>)
    ensures
        r.0@ == w_coords(g_coords@),
{
    LineString(g_points_to_w_coords(g_coords))
}

pub fn g_line_to_w_linestring<T: Copy>(g_line: &GeoLine<T>) -> (r: LineString<T>)
    ensures
        r.0@ == seq![w_coord(g_line.start), w_coord(g_line.end)],
{
    let ends = [g_line.start, g_line.end];
    let r = g_points_to_w_linestring(&ends);
    assert(r.0@ =~= seq![w_coord(g_line.start), w_coord(g_line.end)]);
    r
}

pub fn g_linestring_to_w_linestring<T: Copy>(g_linestring: &GeoLineString<T>) -> (r: LineString<T>)
    ensures
        r.0@ == w_coords(g_linestring.0@),
{
    g_points_to_w_linestring(g_linestring.0.as_slice())
}

pub fn g_lines_to_w_lines<T: Copy>(g_lines: &[GeoLineString<T>]) -> (r: Vec<LineString<T>>)
    ensures
        crate::types::rings_view(r@) == w_lines(g_lines@),
{
    let mut v: Vec<LineString<T>> = Vec::new();
    let mut i: usize = 0;
    while i < g_lines.len()
        invariant
            i <= g_lines@.len(),
            crate::types::rings_view(v@) == w_lines(g_lines@.take(i as int)),
        decreases g_lines@.len() - i,
    {
        let ghost old_v = v@;
        let l = g_linestring_to_w_linestring(&g_lines[i]);
        v.push(l);
        assert(crate::types::rings_view(v@) =~= crate::types::rings_view(old_v).push(w_coords(g_lines@[i as int].0@)));
        assert(w_lines(g_lines@.take(i + 1)) =~= w_lines(g_lines@.take(i as int)).push(w_coords(g_lines@[i as int].0@)));
        i = i + 1;
    }
    assert(g_lines@.take(i as int) =~= g_lines@);
    v
}

/// The polygon's rings: its exterior, left out where it has no coordinate,
/// then its holes.
pub fn g_polygon_to_w_polygon<T: Copy>(g_polygon: &GeoPolygon<T>) -> (r: Polygon<T>)
    ensures
        polygon_shape(r) == w_polygon(*g_polygon),
{
    let mut poly_lines: Vec<LineString<T>> = Vec::new();
    if g_polygon.exterior.0.len() > 0 {
        poly_lines.push(g_linestring_to_w_linestring(&g_polygon.exterior));
    }
    let mut inner = g_lines_to_w_lines(g_polygon.interiors.as_slice());
    let ghost outer = poly_lines@;
    let ghost inner_v = inner@;
    poly_lines.append(&mut inner);
    proof {
        let e = g_polygon.exterior.0@;
        if e.len() == 0 {
            assert(outer =~= seq![]);
            assert(crate::types::rings_view(poly_lines@) =~= crate::types::rings_view(inner_v));
        } else {
            assert(crate::types::rings_view(poly_lines@) =~= seq![w_coords(e)] + crate::types::rings_view(inner_v));
        }
    }
    Polygon(poly_lines)
}

/// The triangle as a polygon with one ring: its corners, closed by the first.
pub fn g_triangle_to_w_polygon<T: Copy>(g_triangle: &GeoTriangle<T>) -> (r: Polygon<T>)
    ensures
        polygon_shape(r) == w_triangle(*g_triangle),
{
    let ring = [g_triangle.0, g_triangle.1, g_triangle.2, g_triangle.0];
    let l = g_points_to_w_linestring(&ring);
    let mut rings: Vec<LineString<T>> = Vec::new();
    rings.push(l);
    let r = Polygon(rings);
    assert(ring@ =~= seq![g_triangle.0, g_triangle.1, g_triangle.2, g_triangle.0]);
    assert(w_coords(ring@) =~= w_triangle(*g_triangle)[0]);
    assert(polygon_shape(r) =~= w_triangle(*g_triangle));
    r
}

/// The rectangle as a polygon with one ring: its four corners, each with the
/// `z` and `m` of the minimum corner, from that corner round and back to it.
pub fn g_rect_to_w_polygon<T: Copy>(g_rect: &GeoRect<T>) -> (r: Polygon<T>)
    ensures
        polygon_shape(r) == w_rect(*g_rect),
{
    let (a, b) = (g_rect.min, g_rect.max);
    let (z, m) = (a.z, a.m);
    let mut cs: Vec<Coord<T>> = Vec::new();
    cs.push(Coord { x: a.x, y: a.y, z, m });
    cs.push(Coord { x: a.x, y: b.y, z, m });
    cs.push(Coord { x: b.x, y: b.y, z, m });
    cs.push(Coord { x: b.x, y: a.y, z, m });
    cs.push(Coord { x: a.x, y: a.y, z, m });
    let mut rings: Vec<LineString<T>> = Vec::new();
    rings.push(LineString(cs));
    let r = Polygon(rings);
    assert(polygon_shape(r)[0] =~= w_rect(*g_rect)[0]);
    assert(polygon_shape(r) =~= w_rect(*g_rect));
    r
}

pub fn g_mpoint_to_w_mpoint<T: Copy>(g_mpoint: &GeoMultiPoint<T>) -> (r: MultiPoint<T>)
    ensures
        crate::types::points_view(r.0@) == w_points(g_mpoint.0@),
{
    MultiPoint(g_points_to_w_points(g_mpoint.0.as_slice()))
}

pub fn g_mline_to_w_mline<T: Copy>(g_mline: &GeoMultiLineString<T>) -> (r: MultiLineString<T>)
    ensures
        crate::types::rings_view(r.0@) == w_lines(g_mline.0@),
{
    MultiLineString(g_lines_to_w_lines(g_mline.0.as_slice()))
}

pub fn g_polygons_to_w_polygons<T: Copy>(g_polygons: &[GeoPolygon<T>]) -> (r: Vec<Polygon<T>>)
    ensures
        crate::types::polygons_view(r@) == w_polygons(g_polygons@),
{
    let mut v: Vec<Polygon<T>> = Vec::new();
    let mut i: usize = 0;
    while i < g_polygons.len()
        invariant
            i <= g_polygons@.len(),
            crate::types::polygons_view(v@) == w_polygons(g_polygons@.take(i as int)),
        decreases g_polygons@.len() - i,
    {
        let ghost old_v = v@;
        let p = g_polygon_to_w_polygon(&g_polygons[i]);
        v.push(p);
        assert(crate::types::polygons_view(v@) =~= crate::types::polygons_view(old_v).push(w_polygon(g_polygons@[i as int])));
        assert(w_polygons(g_polygons@.take(i + 1)) =~= w_polygons(g_polygons@.take(i as int)).push(w_polygon(g_polygons@[i as int])));
        i = i + 1;
    }
    assert(g_polygons@.take(i as int) =~= g_polygons@);
    v
}

pub fn g_mpolygon_to_w_mpolygon<T: Copy>(g_mpolygon: &GeoMultiPolygon<T>) -> (r: MultiPolygon<T>)
    ensures
        crate::types::polygons_view(r.0@) == w_polygons(g_mpolygon.0@),
{
    MultiPolygon(g_polygons_to_w_polygons(g_mpolygon.0.as_slice()))
}

pub fn g_geocol_to_w_geocol<T: Copy>(g_geocol: &GeoGeometryCollection<T>) -> (r: GeometryCollection<T>)
    ensures
        shape_of(Wkt::GeometryCollection(r)) == w_geom(GeoGeometry::GeometryCollection(*g_geocol)),
    decreases g_geocol, 0nat,
{
    let ghost ms = w_geom(GeoGeometry::GeometryCollection(*g_geocol))->GeometryCollection_0;
    let mut w_geoms: Vec<Wkt<T>> = Vec::new();
    let mut i: usize = 0;
    while i < g_geocol.0.len()
        invariant
            i <= g_geocol.0@.len(),
            w_geoms@.len() == i,
            ms == w_geom(GeoGeometry::GeometryCollection(*g_geocol))->GeometryCollection_0,
            ms.len() == g_geocol.0@.len(),
            forall|j: int| 0 <= j < i ==> shape_of(#[trigger] w_geoms@[j]) == ms[j],
        decreases g_geocol.0@.len() - i,
    {
        assert(ms[i as int] == w_geom(g_geocol.0@[i as int]));
        let w = g_geom_to_w_geom(&g_geocol.0[i]);
        w_geoms.push(w);
        i = i + 1;
    }
    let r = GeometryCollection(w_geoms);
    assert(shape_of(Wkt::GeometryCollection(r))->GeometryCollection_0 =~= ms);
    r
}

/// The WKT geometry a geometry is read as: a line as a two-point line
/// string, a rectangle or a triangle as a polygon.
pub fn g_geom_to_w_geom<T: Copy>(g_geom: &GeoGeometry<T>) -> (r: Wkt<T>)
    ensures
        shape_of(r) == w_geom(*g_geom),
    decreases g_geom, 1nat,
{
    match g_geom {
        GeoGeometry::Point(g) => Wkt::Point(g_point_to_w_point(g)),
        GeoGeometry::Line(g) => Wkt::LineString(g_line_to_w_linestring(g)),
        GeoGeometry::LineString(g) => Wkt::LineString(g_linestring_to_w_linestring(g)),
        GeoGeometry::Triangle(g) => Wkt::Polygon(g_triangle_to_w_polygon(g)),
        GeoGeometry::Rect(g) => Wkt::Polygon(g_rect_to_w_polygon(g)),
        GeoGeometry::Polygon(g) => Wkt::Polygon(g_polygon_to_w_polygon(g)),
        GeoGeometry::MultiPoint(g) => Wkt::MultiPoint(g_mpoint_to_w_mpoint(g)),
        GeoGeometry::MultiLineString(g) => Wkt::MultiLineString(g_mline_to_w_mline(g)),
        GeoGeometry::MultiPolygon(g) => Wkt::MultiPolygon(g_mpolygon_to_w_mpolygon(g)),
        GeoGeometry::GeometryCollection(g) => Wkt::GeometryCollection(g_geocol_to_w_geocol(g)),
    }
}

/// The mathematical value of a geo-shaped geometry.
pub enum GeoShape<T> {
    Point(Coord<T>),
    Line(Coord<T>, Coord<T>),
    LineString(Seq<Coord<T>>),
    /// The exterior ring and the holes.
    Polygon(Seq<Coord<T>>, Seq<Seq<Coord<T>>>),
    MultiPoint(Seq<Coord<T>>),
    MultiLineString(Seq<Seq<Coord<T>>>),
    MultiPolygon(Seq<(Seq<Coord<T>>, Seq<Seq<Coord<T>>>)>),
    GeometryCollection(Seq<GeoShape<T>>),
    Rect(Coord<T>, Coord<T>),
    Triangle(Coord<T>, Coord<T>, Coord<T>),
}

pub open spec fn polygon_parts<T>(p: GeoPolygon<T>) -> (Seq<Coord<T>>, Seq<Seq<Coord<T>>>) {
    (w_coords(p.exterior.0@), w_lines(p.interiors@))
}

pub open spec fn polygons_parts<T>(v: Seq<GeoPolygon<T>>) -> Seq<(Seq<Coord<T>>, Seq<Seq<Coord<T>>>)> {
    v.map_values(|p: GeoPolygon<T>| polygon_parts(p))
}

pub open spec fn point_coords<T>(v: Seq<GeoPoint<T>>) -> Seq<Coord<T>> {
    v.map_values(|p: GeoPoint<T>| w_coord(p.0))
}

/// The value of a geo-shaped geometry.
pub open spec fn geo_view<T>(g: GeoGeometry<T>) -> GeoShape<T>
    decreases g,
{
    match g {
        GeoGeometry::Point(p) => GeoShape::Point(w_coord(p.0)),
        GeoGeometry::Line(l) => GeoShape::Line(w_coord(l.start), w_coord(l.end)),
        GeoGeometry::LineString(l) => GeoShape::LineString(w_coords(l.0@)),
        GeoGeometry::Polygon(p) => GeoShape::Polygon(polygon_parts(p).0, polygon_parts(p).1),
        GeoGeometry::MultiPoint(m) => GeoShape::MultiPoint(point_coords(m.0@)),
        GeoGeometry::MultiLineString(m) => GeoShape::MultiLineString(w_lines(m.0@)),
        GeoGeometry::MultiPolygon(m) => GeoShape::MultiPolygon(polygons_parts(m.0@)),
        GeoGeometry::GeometryCollection(c) => GeoShape::GeometryCollection(
            Seq::new(c.0@.len(), |i: int| if 0 <= i < c.0@.len() { geo_view(c.0@[i]) } else { arbitrary() }),
        ),
        GeoGeometry::Rect(r) => GeoShape::Rect(w_coord(r.min), w_coord(r.max)),
        GeoGeometry::Triangle(t) => GeoShape::Triangle(w_coord(t.0), w_coord(t.1), w_coord(t.2)),
    }
}

/// A polygon's rings as exterior and holes: the first ring, or none, and the rest.
pub open spec fn split_rings<T>(rs: Seq<Seq<Coord<T>>>) -> (Seq<Coord<T>>, Seq<Seq<Coord<T>>>) {
    if rs.len() == 0 {
        (seq![], seq![])
    } else {
        (rs[0], rs.skip(1))
    }
}

pub open spec fn split_all<T>(qs: Seq<Seq<Seq<Coord<T>>>>) -> Seq<(Seq<Coord<T>>, Seq<Seq<Coord<T>>>)> {
    qs.map_values(|q: Seq<Seq<Coord<T>>>| split_rings(q))
}

pub open spec fn all_points<T>(ps: Seq<Option<Coord<T>>>) -> bool {
    forall|i: int| 0 <= i < ps.len() ==> (#[trigger] ps[i]) is Some
}

pub open spec fn unwrap_points<T>(ps: Seq<Option<Coord<T>>>) -> Seq<Coord<T>> {
    ps.map_values(|p: Option<Coord<T>>| p->0)
}

/// What a WKT geometry converts to: an empty point becomes an empty multi
/// point, and a multi point with an empty point cannot be converted.
pub open spec fn geo_of<T>(g: Shape<T>) -> Result<GeoShape<T>, Error>
    decreases g, 0int,
{
    match g {
        Shape::Point(Some(c)) => Ok(GeoShape::Point(c)),
        Shape::Point(None) => Ok(GeoShape::MultiPoint(seq![])),
        Shape::LineString(cs) => Ok(GeoShape::LineString(cs)),
        Shape::Polygon(rs) => Ok(GeoShape::Polygon(split_rings(rs).0, split_rings(rs).1)),
        Shape::MultiPoint(ps) => if all_points(ps) {
            Ok(GeoShape::MultiPoint(unwrap_points(ps)))
        } else {
            Err(Error::PointConversionError)
        },
        Shape::MultiLineString(rs) => Ok(GeoShape::MultiLineString(rs)),
        Shape::MultiPolygon(qs) => Ok(GeoShape::MultiPolygon(split_all(qs))),
        Shape::GeometryCollection(ms) => match members_geo(ms, ms.len() as int) {
            Ok(v) => Ok(GeoShape::GeometryCollection(v)),
            Err(e) => Err(e),
        },
    }
}

/// The first `n` members converted, or the first member's error.
pub open spec fn members_geo<T>(ms: Seq<Shape<T>>, n: int) -> Result<Seq<GeoShape<T>>, Error>
    decreases ms, n,
{
    if n <= 0 || n > ms.len() {
        Ok(seq![])
    } else {
        match members_geo(ms, n - 1) {
            Err(e) => Err(e),
            Ok(v) => match geo_of(ms[n - 1]) {
                Err(e) => Err(e),
                Ok(x) => Ok(v.push(x)),
            },
        }
    }
}

proof fn lemma_members_geo_err<T>(ms: Seq<Shape<T>>, k: int, n: int, e: Error)
    requires
        0 <= k <= n <= ms.len(),
        members_geo(ms, k) == Err::<Seq<GeoShape<T>>, Error>(e),
    ensures
        members_geo(ms, n) == Err::<Seq<GeoShape<T>>, Error>(e),
    decreases n - k,
{
    if n > k {
        lemma_members_geo_err(ms, k, n - 1, e);
    }
}

fn geo_coords_of<T: Copy>(cs: &Vec<Coord<T>>) -> (r: Vec<GeoCoord<T>>)
    ensures
        w_coords(r@) == cs@,
{
    let mut v: Vec<GeoCoord<T>> = Vec::new();
    let mut i: usize = 0;
    while i < cs.len()
        invariant
            i <= cs@.len(),
            w_coords(v@) == cs@.take(i as int),
        decreases cs@.len() - i,
    {
        let c = &cs[i];
        let ghost old_v = v@;
        v.push(GeoCoord { x: c.x, y: c.y, z: c.z, m: c.m });
        assert(w_coords(v@) =~= w_coords(old_v).push(*c));
        assert(cs@.take(i + 1) =~= cs@.take(i as int).push(*c));
        i = i + 1;
    }
    assert(cs@.take(i as int) =~= cs@);
    v
}

impl<T: Copy> GeoLineString<T> {
    /// The line string with the same coordinates.
    pub fn from_line_string(l: &LineString<T>) -> (r: Self)
        ensures
            w_coords(r.0@) == l.0@,
    {
        GeoLineString(geo_coords_of(&l.0))
    }
}

fn geo_lines_of<T: Copy>(ls: &[LineString<T>]) -> (r: Vec<GeoLineString<T>>)
    ensures
        w_lines(r@) == rings_view(ls@),
{
    let mut v: Vec<GeoLineString<T>> = Vec::new();
    let mut i: usize = 0;
    while i < ls.len()
        invariant
            i <= ls@.len(),
            w_lines(v@) == rings_view(ls@.take(i as int)),
        decreases ls@.len() - i,
    {
        let l = GeoLineString::from_line_string(&ls[i]);
        let ghost old_v = v@;
        v.push(l);
        assert(w_lines(v@) =~= w_lines(old_v).push(ls@[i as int].0@));
        assert(rings_view(ls@.take(i + 1)) =~= rings_view(ls@.take(i as int)).push(ls@[i as int].0@));
        i = i + 1;
    }
    assert(ls@.take(i as int) =~= ls@);
    v
}

impl<T: Copy> GeoPolygon<T> {
    /// The polygon whose exterior is the first ring, where there is one, and
    /// whose holes are the others.
    pub fn from_polygon(p: &Polygon<T>) -> (r: Self)
        ensures
            polygon_parts(r) == split_rings(polygon_shape(*p)),
    {
        if p.0.len() == 0 {
            let r = GeoPolygon { exterior: GeoLineString(Vec::new()), interiors: Vec::new() };
            assert(w_coords(r.exterior.0@) =~= seq![]);
            assert(w_lines(r.interiors@) =~= seq![]);
            r
        } else {
            let exterior = GeoLineString::from_line_string(&p.0[0]);
            let (_, holes) = p.0.as_slice().split_at(1);
            let interiors = geo_lines_of(holes);
            assert(holes@ =~= p.0@.skip(1));
            assert(rings_view(p.0@.skip(1)) =~= polygon_shape(*p).skip(1));
            GeoPolygon { exterior, interiors }
        }
    }
}

impl<T: Copy> GeoMultiLineString<T> {
    pub fn from_multi_line_string(m: &MultiLineString<T>) -> (r: Self)
        ensures
            w_lines(r.0@) == rings_view(m.0@),
    {
        GeoMultiLineString(geo_lines_of(m.0.as_slice()))
    }
}

impl<T: Copy> GeoMultiPolygon<T> {
    /// Each polygon as [`GeoPolygon::from_polygon`] converts it.
    pub fn from_multi_polygon(m: &MultiPolygon<T>) -> (r: Self)
        ensures
            polygons_parts(r.0@) == split_all(polygons_view(m.0@)),
    {
        let mut v: Vec<GeoPolygon<T>> = Vec::new();
        let mut i: usize = 0;
        while i < m.0.len()
            invariant
                i <= m.0@.len(),
                polygons_parts(v@) == split_all(polygons_view(m.0@.take(i as int))),
            decreases m.0@.len() - i,
        {
            let q = GeoPolygon::from_polygon(&m.0[i]);
            let ghost old_v = v@;
            v.push(q);
            assert(polygons_parts(v@) =~= polygons_parts(old_v).push(polygon_parts(q)));
            assert(split_all(polygons_view(m.0@.take(i + 1))) =~= split_all(polygons_view(m.0@.take(i as int))).push(split_rings(polygon_shape(m.0@[i as int]))));
            i = i + 1;
        }
        assert(m.0@.take(i as int) =~= m.0@);
        GeoMultiPolygon(v)
    }
}

impl<T: Copy> GeoPoint<T> {
    /// The point's coordinate; an empty point has none to give.
    pub fn try_from_point(p: &Point<T>) -> (r: Result<Self, Error>)
        ensures
            match p.0 {
                Some(c) => r matches Ok(q) && w_coord(q.0) == c,
                None => r == Err::<Self, Error>(Error::PointConversionError),
            },
    {
        match &p.0 {
            Some(c) => Ok(GeoPoint(GeoCoord { x: c.x, y: c.y, z: c.z, m: c.m })),
            None => Err(Error::PointConversionError),
        }
    }
}

impl<T: Copy> GeoMultiPoint<T> {
    /// The points' coordinates; fails where a point is empty.
    pub fn try_from_multi_point(m: &MultiPoint<T>) -> (r: Result<Self, Error>)
        ensures
            match r {
                Ok(q) => all_points(points_view(m.0@)) && point_coords(q.0@) == unwrap_points(points_view(m.0@)),
                Err(e) => !all_points(points_view(m.0@)) && e == Error::PointConversionError,
            },
    {
        let ghost ps = points_view(m.0@);
        let mut v: Vec<GeoPoint<T>> = Vec::new();
        let mut i: usize = 0;
        while i < m.0.len()
            invariant
                i <= m.0@.len(),
                ps == points_view(m.0@),
                ps.len() == m.0@.len(),
                forall|j: int| 0 <= j < i ==> (#[trigger] ps[j]) is Some,
                point_coords(v@) == unwrap_points(ps.take(i as int)),
            decreases m.0@.len() - i,
        {
            match GeoPoint::try_from_point(&m.0[i]) {
                Ok(q) => {
                    let ghost old_v = v@;
                    v.push(q);
                    assert(point_coords(v@) =~= point_coords(old_v).push(w_coord(q.0)));
                    assert(unwrap_points(ps.take(i + 1)) =~= unwrap_points(ps.take(i as int)).push(ps[i as int]->0));
                },
                Err(e) => {
                    assert(ps[i as int] is None);
                    return Err(e);
                },
            }
            i = i + 1;
        }
        assert(ps.take(i as int) =~= ps);
        Ok(GeoMultiPoint(v))
    }
}

impl<T: Copy> GeoGeometry<T> {
    /// The geo-shaped geometry a WKT geometry converts to, see [`geo_of`].
    pub fn try_from_wkt(g: &Wkt<T>) -> (r: Result<Self, Error>)
        ensures
            match r {
                Ok(x) => geo_of(shape_of(*g)) == Ok::<GeoShape<T>, Error>(geo_view(x)),
                Err(e) => geo_of(shape_of(*g)) == Err::<GeoShape<T>, Error>(e),
            },
        decreases g, 1nat,
    {
        match g {
            Wkt::Point(p) => match &p.0 {
                Some(_) => match GeoPoint::try_from_point(p) {
                    Ok(q) => Ok(GeoGeometry::Point(q)),
                    Err(e) => Err(e),
                },
                None => {
                    let r = GeoGeometry::MultiPoint(GeoMultiPoint(Vec::new()));
                    assert(point_coords(Seq::<GeoPoint<T>>::empty()) =~= seq![]);
                    Ok(r)
                },
            },
            Wkt::LineString(l) => Ok(GeoGeometry::LineString(GeoLineString::from_line_string(l))),
            Wkt::Polygon(p) => Ok(GeoGeometry::Polygon(GeoPolygon::from_polygon(p))),
            Wkt::MultiPoint(m) => match GeoMultiPoint::try_from_multi_point(m) {
                Ok(q) => Ok(GeoGeometry::MultiPoint(q)),
                Err(e) => Err(e),
            },
            Wkt::MultiLineString(m) => Ok(GeoGeometry::MultiLineString(GeoMultiLineString::from_multi_line_string(m))),
            Wkt::MultiPolygon(m) => Ok(GeoGeometry::MultiPolygon(GeoMultiPolygon::from_multi_polygon(m))),
            Wkt::GeometryCollection(c) => match GeoGeometryCollection::try_from_collection(c) {
                Ok(q) => Ok(GeoGeometry::GeometryCollection(q)),
                Err(e) => Err(e),
            },
        }
    }
}

impl<T: Copy> GeoGeometryCollection<T> {
    /// Each member converted, or the first member's error.
    pub fn try_from_collection(c: &GeometryCollection<T>) -> (r: Result<Self, Error>)
        ensures
            match r {
                Ok(x) => geo_of(shape_of(Wkt::GeometryCollection(*c))) == Ok::<GeoShape<T>, Error>(geo_view(GeoGeometry::GeometryCollection(x))),
                Err(e) => geo_of(shape_of(Wkt::GeometryCollection(*c))) == Err::<GeoShape<T>, Error>(e),
            },
        decreases c, 0nat,
    {
        let ghost ms = shape_of(Wkt::GeometryCollection(*c))->GeometryCollection_0;
        let mut v: Vec<GeoGeometry<T>> = Vec::new();
        let mut i: usize = 0;
        assert(Seq::new(0nat, |j: int| geo_view(v@[j])) =~= Seq::<GeoShape<T>>::empty());
        while i < c.0.len()
            invariant
                i <= c.0@.len(),
                ms == shape_of(Wkt::GeometryCollection(*c))->GeometryCollection_0,
                ms.len() == c.0@.len(),
                v@.len() == i,
                members_geo(ms, i as int) == Ok::<Seq<GeoShape<T>>, Error>(Seq::new(i as nat, |j: int| geo_view(v@[j]))),
            decreases c.0@.len() - i,
        {
            assert(ms[i as int] == shape_of(c.0@[i as int]));
            match GeoGeometry::try_from_wkt(&c.0[i]) {
                Ok(x) => {
                    let ghost old_v = v@;
                    v.push(x);
                    assert(Seq::new((i + 1) as nat, |j: int| geo_view(v@[j])) =~= Seq::new(i as nat, |j: int| geo_view(old_v[j])).push(geo_view(x)));
                },
                Err(e) => {
                    proof {
                        lemma_members_geo_err(ms, i + 1, ms.len() as int, e);
                    }
                    return Err(e);
                },
            }
            i = i + 1;
        }
        let r = GeoGeometryCollection(v);
        assert(geo_view(GeoGeometry::GeometryCollection(r))->GeometryCollection_0 =~= Seq::new(i as nat, |j: int| geo_view(v@[j])));
        Ok(r)
    }
}

} // verus!
