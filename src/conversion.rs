//! Reading a text as a geometry of a requested kind.
use vstd::prelude::*;
use crate::parser::{parse_tokens, parsed_as, Kind};
use crate::tokenizer::{tokenizes, Tokens};
use crate::types::{
    shape_of, Coord, GeometryCollection, LineString, MultiLineString, MultiPoint, MultiPolygon,
    Point, Polygon, Shape, Wkt,
};

verus! {

/// Why a text could not be read as the geometry asked for.
#[derive(Debug, PartialEq)]
pub enum Error {
    /// The point was empty, and what was asked for cannot be empty.
    PointConversionError,
    /// The text holds a geometry of another kind.
    MismatchedGeometry { expected: &'static str, found: &'static str },
    /// A collection had another number of members than was asked for.
    WrongNumberOfGeometries(usize),
    /// The text is not well-known text; the parser's message.
    InvalidWKT(&'static str),
}

/// The kind of a geometry.
pub open spec fn kind_of<T>(g: Shape<T>) -> Kind {
    match g {
        Shape::Point(_) => Kind::Point,
        Shape::LineString(_) => Kind::LineString,
        Shape::Polygon(_) => Kind::Polygon,
        Shape::MultiPoint(_) => Kind::MultiPoint,
        Shape::MultiLineString(_) => Kind::MultiLineString,
        Shape::MultiPolygon(_) => Kind::MultiPolygon,
        Shape::GeometryCollection(_) => Kind::GeometryCollection,
    }
}

pub open spec fn kind_name_of(k: Kind) -> &'static str {
    match k {
        Kind::Point => "Point",
        Kind::LineString => "LineString",
        Kind::Polygon => "Polygon",
        Kind::MultiPoint => "MultiPoint",
        Kind::MultiLineString => "MultiLineString",
        Kind::MultiPolygon => "MultiPolygon",
        Kind::GeometryCollection => "GeometryCollection",
    }
}

/// The name of a kind, as errors give it.
pub fn kind_name(k: Kind) -> (r: &'static str)
    ensures
        r == kind_name_of(k),
{
    match k {
        Kind::Point => "Point",
        Kind::LineString => "LineString",
        Kind::Polygon => "Polygon",
        Kind::MultiPoint => "MultiPoint",
        Kind::MultiLineString => "MultiLineString",
        Kind::MultiPolygon => "MultiPolygon",
        Kind::GeometryCollection => "GeometryCollection",
    }
}

impl<T> Wkt<T> {
    /// The kind of the geometry.
    pub fn kind(&self) -> (r: Kind)
        ensures
            r == kind_of(shape_of(*self)),
    {
        match self {
            Wkt::Point(_) => Kind::Point,
            Wkt::LineString(_) => Kind::LineString,
            Wkt::Polygon(_) => Kind::Polygon,
            Wkt::MultiPoint(_) => Kind::MultiPoint,
            Wkt::MultiLineString(_) => Kind::MultiLineString,
            Wkt::MultiPolygon(_) => Kind::MultiPolygon,
            Wkt::GeometryCollection(_) => Kind::GeometryCollection,
        }
    }
}

/// The error for a geometry `g` where a `expected` was asked for.
pub open spec fn mismatch<T>(expected: Kind, g: Shape<T>) -> Error {
    Error::MismatchedGeometry { expected: kind_name_of(expected), found: kind_name_of(kind_of(g)) }
}

/// What reading a text as a `want` gives, where the parse of its tokens gave `p`.
pub open spec fn read_kind<T>(p: Result<Shape<T>, &'static str>, want: Kind) -> Result<Shape<T>, Error> {
    match p {
        Err(e) => Err(Error::InvalidWKT(e)),
        Ok(g) => if kind_of(g) == want {
            Ok(g)
        } else {
            Err(mismatch(want, g))
        },
    }
}

/// Taking a geometry as one of a given kind.
pub trait TryFromWkt<T>: Sized {
    /// The kind of geometry a value of this type is.
    spec fn wkt_kind() -> Kind;

    /// The geometry a value is.
    spec fn wkt_shape(&self) -> Shape<T>;

    /// The geometry, where it is of this type's kind; else
    /// [`Error::MismatchedGeometry`].
    fn try_from_wkt(wkt: Wkt<T>) -> (r: Result<Self, Error>)
        ensures
            match r {
                Ok(x) => kind_of(shape_of(wkt)) == Self::wkt_kind() && x.wkt_shape() == shape_of(wkt),
                Err(e) => kind_of(shape_of(wkt)) != Self::wkt_kind() && e == mismatch(Self::wkt_kind(), shape_of(wkt)),
            },
    ;
}

impl<T> TryFromWkt<T> for Point<T> {
    open spec fn wkt_kind() -> Kind {
        Kind::Point
    }

    open spec fn wkt_shape(&self) -> Shape<T> {
        Shape::Point(self.0)
    }

    fn try_from_wkt(wkt: Wkt<T>) -> (r: Result<Self, Error>) {
        let k = wkt.kind();
        match wkt {
            Wkt::Point(x) => Ok(x),
            _ => Err(Error::MismatchedGeometry { expected: kind_name(Kind::Point), found: kind_name(k) }),
        }
    }
}

impl<T: crate::num::WktNum + std::str::FromStr> Point<T> {
    /// Parses `wkt_str` and takes the geometry if it is of this kind: a
    /// parse error is [`Error::InvalidWKT`], another kind
    /// [`Error::MismatchedGeometry`].
    pub fn try_from_wkt_str(wkt_str: &str) -> (r: Result<Self, Error>)
        ensures
            exists|ts: Tokens<T>| #![auto]
                tokenizes(wkt_str@, ts.toks@, ts.fault) && match r {
                    Ok(x) => read_kind(parse_tokens(ts), Kind::Point) == Ok::<Shape<T>, Error>(Shape::Point(x.0)),
                    Err(e) => read_kind(parse_tokens(ts), Kind::Point) == Err::<Shape<T>, Error>(e),
                },
    {
        let r0 = Wkt::<T>::from_str(wkt_str);
        let ghost ts = choose|ts: Tokens<T>| tokenizes(wkt_str@, ts.toks@, ts.fault) && parsed_as(r0, parse_tokens(ts));
        let r = match r0 {
            Err(e) => Err(Error::InvalidWKT(e)),
            Ok(g) => <Point<T> as TryFromWkt<T>>::try_from_wkt(g),
        };
        assert(tokenizes(wkt_str@, ts.toks@, ts.fault));
        r
    }
}

impl<T> TryFromWkt<T> for LineString<T> {
    open spec fn wkt_kind() -> Kind {
        Kind::LineString
    }

    open spec fn wkt_shape(&self) -> Shape<T> {
        Shape::LineString(self.0@)
    }

    fn try_from_wkt(wkt: Wkt<T>) -> (r: Result<Self, Error>) {
        let k = wkt.kind();
        match wkt {
            Wkt::LineString(x) => Ok(x),
            _ => Err(Error::MismatchedGeometry { expected: kind_name(Kind::LineString), found: kind_name(k) }),
        }
    }
}

impl<T: crate::num::WktNum + std::str::FromStr> LineString<T> {
    /// Parses `wkt_str` and takes the geometry if it is of this kind: a
    /// parse error is [`Error::InvalidWKT`], another kind
    /// [`Error::MismatchedGeometry`].
    pub fn try_from_wkt_str(wkt_str: &str) -> (r: Result<Self, Error>)
        ensures
            exists|ts: Tokens<T>| #![auto]
                tokenizes(wkt_str@, ts.toks@, ts.fault) && match r {
                    Ok(x) => read_kind(parse_tokens(ts), Kind::LineString) == Ok::<Shape<T>, Error>(Shape::LineString(x.0@)),
                    Err(e) => read_kind(parse_tokens(ts), Kind::LineString) == Err::<Shape<T>, Error>(e),
                },
    {
        let r0 = Wkt::<T>::from_str(wkt_str);
        let ghost ts = choose|ts: Tokens<T>| tokenizes(wkt_str@, ts.toks@, ts.fault) && parsed_as(r0, parse_tokens(ts));
        let r = match r0 {
            Err(e) => Err(Error::InvalidWKT(e)),
            Ok(g) => <LineString<T> as TryFromWkt<T>>::try_from_wkt(g),
        };
        assert(tokenizes(wkt_str@, ts.toks@, ts.fault));
        r
    }
}

impl<T> TryFromWkt<T> for Polygon<T> {
    open spec fn wkt_kind() -> Kind {
        Kind::Polygon
    }

    open spec fn wkt_shape(&self) -> Shape<T> {
        Shape::Polygon(crate::types::polygon_shape(*self))
    }

    fn try_from_wkt(wkt: Wkt<T>) -> (r: Result<Self, Error>) {
        let k = wkt.kind();
        match wkt {
            Wkt::Polygon(x) => Ok(x),
            _ => Err(Error::MismatchedGeometry { expected: kind_name(Kind::Polygon), found: kind_name(k) }),
        }
    }
}

impl<T: crate::num::WktNum + std::str::FromStr> Polygon<T> {
    /// Parses `wkt_str` and takes the geometry if it is of this kind: a
    /// parse error is [`Error::InvalidWKT`], another kind
    /// [`Error::MismatchedGeometry`].
    pub fn try_from_wkt_str(wkt_str: &str) -> (r: Result<Self, Error>)
        ensures
            exists|ts: Tokens<T>| #![auto]
                tokenizes(wkt_str@, ts.toks@, ts.fault) && match r {
                    Ok(x) => read_kind(parse_tokens(ts), Kind::Polygon) == Ok::<Shape<T>, Error>(Shape::Polygon(crate::types::polygon_shape(x))),
                    Err(e) => read_kind(parse_tokens(ts), Kind::Polygon) == Err::<Shape<T>, Error>(e),
                },
    {
        let r0 = Wkt::<T>::from_str(wkt_str);
        let ghost ts = choose|ts: Tokens<T>| tokenizes(wkt_str@, ts.toks@, ts.fault) && parsed_as(r0, parse_tokens(ts));
        let r = match r0 {
            Err(e) => Err(Error::InvalidWKT(e)),
            Ok(g) => <Polygon<T> as TryFromWkt<T>>::try_from_wkt(g),
        };
        assert(tokenizes(wkt_str@, ts.toks@, ts.fault));
        r
    }
}

impl<T> TryFromWkt<T> for MultiPoint<T> {
    open spec fn wkt_kind() -> Kind {
        Kind::MultiPoint
    }

    open spec fn wkt_shape(&self) -> Shape<T> {
        Shape::MultiPoint(crate::types::points_view(self.0@))
    }

    fn try_from_wkt(wkt: Wkt<T>) -> (r: Result<Self, Error>) {
        let k = wkt.kind();
        match wkt {
            Wkt::MultiPoint(x) => Ok(x),
            _ => Err(Error::MismatchedGeometry { expected: kind_name(Kind::MultiPoint), found: kind_name(k) }),
        }
    }
}

impl<T: crate::num::WktNum + std::str::FromStr> MultiPoint<T> {
    /// Parses `wkt_str` and takes the geometry if it is of this kind: a
    /// parse error is [`Error::InvalidWKT`], another kind
    /// [`Error::MismatchedGeometry`].
    pub fn try_from_wkt_str(wkt_str: &str) -> (r: Result<Self, Error>)
        ensures
            exists|ts: Tokens<T>| #![auto]
                tokenizes(wkt_str@, ts.toks@, ts.fault) && match r {
                    Ok(x) => read_kind(parse_tokens(ts), Kind::MultiPoint) == Ok::<Shape<T>, Error>(Shape::MultiPoint(crate::types::points_view(x.0@))),
                    Err(e) => read_kind(parse_tokens(ts), Kind::MultiPoint) == Err::<Shape<T>, Error>(e),
                },
    {
        let r0 = Wkt::<T>::from_str(wkt_str);
        let ghost ts = choose|ts: Tokens<T>| tokenizes(wkt_str@, ts.toks@, ts.fault) && parsed_as(r0, parse_tokens(ts));
        let r = match r0 {
            Err(e) => Err(Error::InvalidWKT(e)),
            Ok(g) => <MultiPoint<T> as TryFromWkt<T>>::try_from_wkt(g),
        };
        assert(tokenizes(wkt_str@, ts.toks@, ts.fault));
        r
    }
}

impl<T> TryFromWkt<T> for MultiLineString<T> {
    open spec fn wkt_kind() -> Kind {
        Kind::MultiLineString
    }

    open spec fn wkt_shape(&self) -> Shape<T> {
        Shape::MultiLineString(crate::types::rings_view(self.0@))
    }

    fn try_from_wkt(wkt: Wkt<T>) -> (r: Result<Self, Error>) {
        let k = wkt.kind();
        match wkt {
            Wkt::MultiLineString(x) => Ok(x),
            _ => Err(Error::MismatchedGeometry { expected: kind_name(Kind::MultiLineString), found: kind_name(k) }),
        }
    }
}

impl<T: crate::num::WktNum + std::str::FromStr> MultiLineString<T> {
    /// Parses `wkt_str` and takes the geometry if it is of this kind: a
    /// parse error is [`Error::InvalidWKT`], another kind
    /// [`Error::MismatchedGeometry`].
    pub fn try_from_wkt_str(wkt_str: &str) -> (r: Result<Self, Error>)
        ensures
            exists|ts: Tokens<T>| #![auto]
                tokenizes(wkt_str@, ts.toks@, ts.fault) && match r {
                    Ok(x) => read_kind(parse_tokens(ts), Kind::MultiLineString) == Ok::<Shape<T>, Error>(Shape::MultiLineString(crate::types::rings_view(x.0@))),
                    Err(e) => read_kind(parse_tokens(ts), Kind::MultiLineString) == Err::<Shape<T>, Error>(e),
                },
    {
        let r0 = Wkt::<T>::from_str(wkt_str);
        let ghost ts = choose|ts: Tokens<T>| tokenizes(wkt_str@, ts.toks@, ts.fault) && parsed_as(r0, parse_tokens(ts));
        let r = match r0 {
            Err(e) => Err(Error::InvalidWKT(e)),
            Ok(g) => <MultiLineString<T> as TryFromWkt<T>>::try_from_wkt(g),
        };
        assert(tokenizes(wkt_str@, ts.toks@, ts.fault));
        r
    }
}

impl<T> TryFromWkt<T> for MultiPolygon<T> {
    open spec fn wkt_kind() -> Kind {
        Kind::MultiPolygon
    }

    open spec fn wkt_shape(&self) -> Shape<T> {
        Shape::MultiPolygon(crate::types::polygons_view(self.0@))
    }

    fn try_from_wkt(wkt: Wkt<T>) -> (r: Result<Self, Error>) {
        let k = wkt.kind();
        match wkt {
            Wkt::MultiPolygon(x) => Ok(x),
            _ => Err(Error::MismatchedGeometry { expected: kind_name(Kind::MultiPolygon), found: kind_name(k) }),
        }
    }
}

impl<T: crate::num::WktNum + std::str::FromStr> MultiPolygon<T> {
    /// Parses `wkt_str` and takes the geometry if it is of this kind: a
    /// parse error is [`Error::InvalidWKT`], another kind
    /// [`Error::MismatchedGeometry`].
    pub fn try_from_wkt_str(wkt_str: &str) -> (r: Result<Self, Error>)
        ensures
            exists|ts: Tokens<T>| #![auto]
                tokenizes(wkt_str@, ts.toks@, ts.fault) && match r {
                    Ok(x) => read_kind(parse_tokens(ts), Kind::MultiPolygon) == Ok::<Shape<T>, Error>(Shape::MultiPolygon(crate::types::polygons_view(x.0@))),
                    Err(e) => read_kind(parse_tokens(ts), Kind::MultiPolygon) == Err::<Shape<T>, Error>(e),
                },
    {
        let r0 = Wkt::<T>::from_str(wkt_str);
        let ghost ts = choose|ts: Tokens<T>| tokenizes(wkt_str@, ts.toks@, ts.fault) && parsed_as(r0, parse_tokens(ts));
        let r = match r0 {
            Err(e) => Err(Error::InvalidWKT(e)),
            Ok(g) => <MultiPolygon<T> as TryFromWkt<T>>::try_from_wkt(g),
        };
        assert(tokenizes(wkt_str@, ts.toks@, ts.fault));
        r
    }
}

impl<T> TryFromWkt<T> for GeometryCollection<T> {
    open spec fn wkt_kind() -> Kind {
        Kind::GeometryCollection
    }

    open spec fn wkt_shape(&self) -> Shape<T> {
        shape_of(Wkt::GeometryCollection(*self))
    }

    fn try_from_wkt(wkt: Wkt<T>) -> (r: Result<Self, Error>) {
        let k = wkt.kind();
        match wkt {
            Wkt::GeometryCollection(x) => Ok(x),
            _ => Err(Error::MismatchedGeometry { expected: kind_name(Kind::GeometryCollection), found: kind_name(k) }),
        }
    }
}

impl<T: crate::num::WktNum + std::str::FromStr> GeometryCollection<T> {
    /// Parses `wkt_str` and takes the geometry if it is of this kind: a
    /// parse error is [`Error::InvalidWKT`], another kind
    /// [`Error::MismatchedGeometry`].
    pub fn try_from_wkt_str(wkt_str: &str) -> (r: Result<Self, Error>)
        ensures
            exists|ts: Tokens<T>| #![auto]
                tokenizes(wkt_str@, ts.toks@, ts.fault) && match r {
                    Ok(x) => read_kind(parse_tokens(ts), Kind::GeometryCollection) == Ok::<Shape<T>, Error>(shape_of(Wkt::GeometryCollection(x))),
                    Err(e) => read_kind(parse_tokens(ts), Kind::GeometryCollection) == Err::<Shape<T>, Error>(e),
                },
    {
        let r0 = Wkt::<T>::from_str(wkt_str);
        let ghost ts = choose|ts: Tokens<T>| tokenizes(wkt_str@, ts.toks@, ts.fault) && parsed_as(r0, parse_tokens(ts));
        let r = match r0 {
            Err(e) => Err(Error::InvalidWKT(e)),
            Ok(g) => <GeometryCollection<T> as TryFromWkt<T>>::try_from_wkt(g),
        };
        assert(tokenizes(wkt_str@, ts.toks@, ts.fault));
        r
    }
}

impl<T> Point<T> {
    /// The coordinate of the point; an empty point has none.
    pub fn try_into_coord(self) -> (r: Result<Coord<T>, Error>)
        ensures
            match self.0 {
                Some(c) => r == Ok::<Coord<T>, Error>(c),
                None => r == Err::<Coord<T>, Error>(Error::PointConversionError),
            },
    {
        match self.0 {
            Some(c) => Ok(c),
            None => Err(Error::PointConversionError),
        }
    }
}

} // verus!
