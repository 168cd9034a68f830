//! Recursive-descent parsing of tokens into a geometry.
//!
//! The spec functions here read a token sequence from a position and yield
//! what was parsed together with the number of tokens it took, or the first
//! error met. Every error ends the parse. Keywords are matched without regard
//! to ASCII case.
use vstd::prelude::*;
use crate::tokenizer::{tokenizes, Token, Tokens};
use crate::types::{
    has_m, has_z, shape_of, Coord, Dimension, GeometryCollection, LineString, MultiLineString, MultiPoint,
    MultiPolygon, Point, Polygon, Shape, Wkt,
};

verus! {

pub const INVALID_FORMAT: &'static str = "Invalid WKT format";
pub const INVALID_TYPE: &'static str = "Invalid type encountered";
pub const UNEXPECTED_WORD: &'static str = "Unexpected word before open paren";
pub const END_OF_STREAM: &'static str = "End of stream";
pub const MISSING_OPEN: &'static str = "Missing open parenthesis for type";
pub const MISSING_CLOSE: &'static str = "Missing closing parenthesis for type";
pub const EXPECTED_X: &'static str = "Expected a number for the X coordinate";
pub const EXPECTED_Y: &'static str = "Expected a number for the Y coordinate";
pub const EXPECTED_Z: &'static str = "Expected a number for the Z coordinate";
pub const EXPECTED_M: &'static str = "Expected a number for the M coordinate";
pub const EXPECTED_MEMBER_WORD: &'static str = "Expected a word in GEOMETRYCOLLECTION";
pub const TOO_DEEP: &'static str = "Geometry collections are nested too deeply";

/// How many geometry collections may enclose one another.
pub const MAX_DEPTH: usize = 128;

/// The seven kinds of geometry.
#[derive(Clone, Copy, Debug, PartialEq, Eq, Structural)]
pub enum Kind {
    Point,
    LineString,
    Polygon,
    MultiPoint,
    MultiLineString,
    MultiPolygon,
    GeometryCollection,
}

/// What a comma-separated list holds.
#[derive(Clone, Copy, Debug, PartialEq, Eq, Structural)]
pub enum Item {
    /// A bare coordinate, in a line string.
    Coord,
    /// A parenthesized coordinate list or `EMPTY`, in a polygon or multi line string.
    Ring,
    /// A parenthesized ring list or `EMPTY`, in a multi polygon.
    Polygon,
    /// A coordinate, parenthesized or not, in a multi point.
    Point,
    /// A geometry with its keyword, in a geometry collection.
    Member,
}

pub open spec fn same_letter(a: char, k: char) -> bool {
    a as u32 == k as u32 || (97 <= a as u32 <= 122 && a as u32 == k as u32 + 32)
}

/// `w` is the upper-case keyword `kw` but for ASCII case.
pub open spec fn word_is(w: Seq<char>, kw: Seq<char>) -> bool {
    w.len() == kw.len() && forall|i: int| 0 <= i < w.len() ==> same_letter(#[trigger] w[i], kw[i])
}

/// The kind that a keyword without dimension marker names.
pub open spec fn base_kind(w: Seq<char>) -> Option<Kind> {
    if word_is(w, "POINT"@) {
        Some(Kind::Point)
    } else if word_is(w, "LINESTRING"@) || word_is(w, "LINEARRING"@) {
        Some(Kind::LineString)
    } else if word_is(w, "POLYGON"@) {
        Some(Kind::Polygon)
    } else if word_is(w, "MULTIPOINT"@) {
        Some(Kind::MultiPoint)
    } else if word_is(w, "MULTILINESTRING"@) {
        Some(Kind::MultiLineString)
    } else if word_is(w, "MULTIPOLYGON"@) {
        Some(Kind::MultiPolygon)
    } else if word_is(w, "GEOMETRYCOLLECTION"@) {
        Some(Kind::GeometryCollection)
    } else {
        None
    }
}

/// The dimension that a marker word names.
pub open spec fn marker_dim(w: Seq<char>) -> Option<Dimension> {
    if word_is(w, "Z"@) {
        Some(Dimension::XYZ)
    } else if word_is(w, "M"@) {
        Some(Dimension::XYM)
    } else if word_is(w, "ZM"@) {
        Some(Dimension::XYZM)
    } else {
        None
    }
}

/// The kind a keyword names, and the dimension where a marker is fused to it
/// (`POINTZ`).
pub open spec fn word_kind(w: Seq<char>) -> Option<(Kind, Option<Dimension>)> {
    if base_kind(w) is Some {
        Some((base_kind(w)->0, None))
    } else if w.len() >= 2 && marker_dim(w.skip(w.len() - 2)) is Some
        && base_kind(w.take(w.len() - 2)) is Some {
        Some((base_kind(w.take(w.len() - 2))->0, marker_dim(w.skip(w.len() - 2))))
    } else if w.len() >= 1 && marker_dim(w.skip(w.len() - 1)) is Some
        && base_kind(w.take(w.len() - 1)) is Some {
        Some((base_kind(w.take(w.len() - 1))->0, marker_dim(w.skip(w.len() - 1))))
    } else {
        None
    }
}

/// The token at `pos`, if there is one.
pub open spec fn at<T>(ts: Tokens<T>, pos: int) -> Option<Token<T>> {
    if 0 <= pos < ts.toks@.len() {
        Some(ts.toks@[pos])
    } else {
        None
    }
}

/// The error met where a token was wanted past the last one: the lexical
/// error that ended the tokens, else `msg`.
pub open spec fn past_end<T>(ts: Tokens<T>, msg: &'static str) -> &'static str {
    match ts.fault {
        Some(e) => e,
        None => msg,
    }
}

pub open spec fn is_comma_at<T>(ts: Tokens<T>, pos: int) -> bool {
    at(ts, pos) matches Some(Token::Comma)
}

/// The empty geometry of a kind.
pub open spec fn empty_shape<T>(k: Kind) -> Shape<T> {
    match k {
        Kind::Point => Shape::Point(None),
        Kind::LineString => Shape::LineString(seq![]),
        Kind::Polygon => Shape::Polygon(seq![]),
        Kind::MultiPoint => Shape::MultiPoint(seq![]),
        Kind::MultiLineString => Shape::MultiLineString(seq![]),
        Kind::MultiPolygon => Shape::MultiPolygon(seq![]),
        Kind::GeometryCollection => Shape::GeometryCollection(seq![]),
    }
}

pub open spec fn number_at<T>(ts: Tokens<T>, pos: int, msg: &'static str) -> Result<T, &'static str> {
    match at(ts, pos) {
        Some(Token::Number(v)) => Ok(v),
        Some(_) => Err(msg),
        None => Err(past_end(ts, msg)),
    }
}

/// How many numbers a coordinate of a dimension has.
pub open spec fn arity(d: Dimension) -> nat {
    match d {
        Dimension::XY => 2,
        Dimension::XYZ => 3,
        Dimension::XYM => 3,
        Dimension::XYZM => 4,
    }
}

/// An optional component: read at `pos` where `wanted`, else absent.
pub open spec fn component_at<T>(ts: Tokens<T>, wanted: bool, pos: int, msg: &'static str) -> Result<Option<T>, &'static str> {
    if wanted {
        match number_at(ts, pos, msg) {
            Err(e) => Err(e),
            Ok(v) => Ok(Some(v)),
        }
    } else {
        Ok(None)
    }
}

/// A coordinate: as many numbers as the dimension has components, in the
/// order x, y, z, m; a missing one is an error naming it.
pub open spec fn coord_at<T>(ts: Tokens<T>, dim: Dimension, pos: int) -> Result<(Coord<T>, nat), &'static str> {
    match number_at(ts, pos, EXPECTED_X) {
        Err(e) => Err(e),
        Ok(x) => match number_at(ts, pos + 1, EXPECTED_Y) {
            Err(e) => Err(e),
            Ok(y) => match component_at(ts, has_z(dim), pos + 2, EXPECTED_Z) {
                Err(e) => Err(e),
                Ok(z) => match component_at(ts, has_m(dim), pos + 2 + if has_z(dim) { 1int } else { 0int }, EXPECTED_M) {
                    Err(e) => Err(e),
                    Ok(m) => Ok((Coord { x, y, z, m }, arity(dim))),
                },
            },
        },
    }
}

/// The dimension of a header whose marker is not fused to the keyword:
/// a `Z`, `M` or `ZM` word is taken; anything else but a word leaves `XY`.
pub open spec fn infer_dim<T>(ts: Tokens<T>, pos: int) -> Result<(Dimension, nat), &'static str> {
    match at(ts, pos) {
        Some(Token::Word(w)) => if marker_dim(w@) is Some {
            Ok((marker_dim(w@)->0, 1nat))
        } else if word_is(w@, "EMPTY"@) {
            Ok((Dimension::XY, 0nat))
        } else {
            Err(UNEXPECTED_WORD)
        },
        Some(_) => Ok((Dimension::XY, 0nat)),
        None => Err(past_end(ts, END_OF_STREAM)),
    }
}

/// Prefixes `s` to the list parsed after it, `n` tokens later.
pub open spec fn cons_after<T>(s: Shape<T>, n: nat, rest: Result<(Seq<Shape<T>>, nat), &'static str>) -> Result<(Seq<Shape<T>>, nat), &'static str> {
    match rest {
        Err(e) => Err(e),
        Ok((ss, m)) => Ok((seq![s] + ss, n + m)),
    }
}

/// One item of a list.
pub open spec fn item<T>(ts: Tokens<T>, it: Item, dim: Dimension, pos: int, depth: nat) -> Result<(Shape<T>, nat), &'static str>
    decreases ts.toks@.len() - pos, 2nat,
{
    match it {
        Item::Coord => match coord_at(ts, dim, pos) {
            Err(e) => Err(e),
            Ok((c, n)) => Ok((Shape::Point(Some(c)), n)),
        },
        Item::Ring => body(ts, Kind::LineString, dim, pos, depth),
        Item::Polygon => body(ts, Kind::Polygon, dim, pos, depth),
        Item::Point => if at(ts, pos) matches Some(Token::ParenOpen) || at(ts, pos) matches Some(Token::Word(_)) {
            body(ts, Kind::Point, dim, pos, depth)
        } else {
            inner(ts, Kind::Point, dim, pos, depth)
        },
        Item::Member => match at(ts, pos) {
            Some(Token::Word(w)) => if 0 <= pos < ts.toks@.len() {
                match from_word(ts, w@, pos + 1, depth) {
                    Err(e) => Err(e),
                    Ok((g, n)) => Ok((g, n + 1)),
                }
            } else {
                Err(EXPECTED_MEMBER_WORD)
            },
            Some(_) => Err(EXPECTED_MEMBER_WORD),
            None => Err(past_end(ts, EXPECTED_MEMBER_WORD)),
        },
    }
}

/// A comma-separated list of one or more items.
pub open spec fn items<T>(ts: Tokens<T>, it: Item, dim: Dimension, pos: int, depth: nat) -> Result<(Seq<Shape<T>>, nat), &'static str>
    decreases ts.toks@.len() - pos, 3nat,
{
    match item(ts, it, dim, pos, depth) {
        Err(e) => Err(e),
        Ok((s, n)) => if is_comma_at(ts, pos + n) {
            cons_after(s, n + 1, items(ts, it, dim, pos + n + 1, depth))
        } else {
            Ok((seq![s], n))
        },
    }
}

/// The coordinates, rings, points and polygons that list items stand for.
pub open spec fn coords_of<T>(ss: Seq<Shape<T>>) -> Seq<Coord<T>> {
    ss.map_values(|s: Shape<T>| s->Point_0->0)
}

pub open spec fn rings_of<T>(ss: Seq<Shape<T>>) -> Seq<Seq<Coord<T>>> {
    ss.map_values(|s: Shape<T>| s->LineString_0)
}

pub open spec fn points_of<T>(ss: Seq<Shape<T>>) -> Seq<Option<Coord<T>>> {
    ss.map_values(|s: Shape<T>| s->Point_0)
}

pub open spec fn polygons_of<T>(ss: Seq<Shape<T>>) -> Seq<Seq<Seq<Coord<T>>>> {
    ss.map_values(|s: Shape<T>| s->Polygon_0)
}

/// The inside of a non-empty body, between its parentheses.
pub open spec fn inner<T>(ts: Tokens<T>, k: Kind, dim: Dimension, pos: int, depth: nat) -> Result<(Shape<T>, nat), &'static str>
    decreases ts.toks@.len() - pos, if k == Kind::Point { 1nat } else { 4nat },
{
    let _len = ts.toks.len();
    match k {
        Kind::Point => match coord_at(ts, dim, pos) {
            Err(e) => Err(e),
            Ok((c, n)) => Ok((Shape::Point(Some(c)), n)),
        },
        Kind::LineString => match items(ts, Item::Coord, dim, pos, depth) {
            Err(e) => Err(e),
            Ok((ss, n)) => Ok((Shape::LineString(coords_of(ss)), n)),
        },
        Kind::Polygon => match items(ts, Item::Ring, dim, pos, depth) {
            Err(e) => Err(e),
            Ok((ss, n)) => Ok((Shape::Polygon(rings_of(ss)), n)),
        },
        Kind::MultiPoint => match items(ts, Item::Point, dim, pos, depth) {
            Err(e) => Err(e),
            Ok((ss, n)) => Ok((Shape::MultiPoint(points_of(ss)), n)),
        },
        Kind::MultiLineString => match items(ts, Item::Ring, dim, pos, depth) {
            Err(e) => Err(e),
            Ok((ss, n)) => Ok((Shape::MultiLineString(rings_of(ss)), n)),
        },
        Kind::MultiPolygon => match items(ts, Item::Polygon, dim, pos, depth) {
            Err(e) => Err(e),
            Ok((ss, n)) => Ok((Shape::MultiPolygon(polygons_of(ss)), n)),
        },
        Kind::GeometryCollection => if depth >= MAX_DEPTH {
            Err(TOO_DEEP)
        } else {
            match items(ts, Item::Member, dim, pos, depth + 1) {
                Err(e) => Err(e),
                Ok((ss, n)) => Ok((Shape::GeometryCollection(ss), n)),
            }
        },
    }
}

/// A body: `EMPTY`, or the inside between parentheses.
pub open spec fn body<T>(ts: Tokens<T>, k: Kind, dim: Dimension, pos: int, depth: nat) -> Result<(Shape<T>, nat), &'static str>
    decreases ts.toks@.len() - pos, 0nat,
{
    match at(ts, pos) {
        Some(Token::ParenOpen) => if 0 <= pos < ts.toks@.len() {
            match inner(ts, k, dim, pos + 1, depth) {
                Err(e) => Err(e),
                Ok((g, n)) => match at(ts, pos + 1 + n) {
                    Some(Token::ParenClose) => Ok((g, n + 2)),
                    Some(_) => Err(MISSING_CLOSE),
                    None => Err(past_end(ts, MISSING_CLOSE)),
                },
            }
        } else {
            Err(MISSING_OPEN)
        },
        Some(Token::Word(w)) => if word_is(w@, "EMPTY"@) {
            Ok((empty_shape(k), 1nat))
        } else {
            Err(MISSING_OPEN)
        },
        Some(_) => Err(MISSING_OPEN),
        None => Err(past_end(ts, MISSING_OPEN)),
    }
}

/// A geometry after its keyword: the dimension, from the fused marker or
/// read here, then the body.
pub open spec fn tagged<T>(ts: Tokens<T>, k: Kind, fused: Option<Dimension>, pos: int, depth: nat) -> Result<(Shape<T>, nat), &'static str>
    decreases ts.toks@.len() - pos, 1nat,
{
    let d = match fused {
        Some(d) => Ok((d, 0nat)),
        None => infer_dim(ts, pos),
    };
    match d {
        Err(e) => Err(e),
        Ok((dim, c)) => if c == 0 || 0 <= pos < ts.toks@.len() {
            match body(ts, k, dim, pos + c, depth) {
                Err(e) => Err(e),
                Ok((g, n)) => Ok((g, c + n)),
            }
        } else {
            Err(END_OF_STREAM)
        },
    }
}

/// A geometry whose keyword `w` has been read; `pos` is just after it.
pub open spec fn from_word<T>(ts: Tokens<T>, w: Seq<char>, pos: int, depth: nat) -> Result<(Shape<T>, nat), &'static str>
    decreases ts.toks@.len() - pos, 2nat,
{
    match word_kind(w) {
        None => Err(INVALID_TYPE),
        Some((k, fused)) => tagged(ts, k, fused, pos, depth),
    }
}

/// The geometry that a token sequence starts with. Tokens after it are not read.
pub open spec fn parse_tokens<T>(ts: Tokens<T>) -> Result<Shape<T>, &'static str> {
    match at(ts, 0) {
        Some(Token::Word(w)) => match from_word(ts, w@, 1, 0) {
            Err(e) => Err(e),
            Ok((g, n)) => Ok(g),
        },
        Some(_) => Err(INVALID_FORMAT),
        None => Err(past_end(ts, INVALID_FORMAT)),
    }
}


fn same_letter_exec(a: char, k: char) -> (r: bool)
    ensures
        r == same_letter(a, k),
{
    let (x, y) = (a as u32, k as u32);
    x == y || (97 <= x && x <= 122 && x - 32 == y)
}

/// Whether `w[lo..hi]` is the keyword `kw` but for case.
fn word_is_at(w: &Vec<char>, lo: usize, hi: usize, kw: &str) -> (r: bool)
    requires
        lo <= hi <= w@.len(),
    ensures
        r == word_is(w@.subrange(lo as int, hi as int), kw@),
{
    let n = kw.unicode_len();
    if hi - lo != n {
        return false;
    }
    let ghost sub = w@.subrange(lo as int, hi as int);
    let mut i: usize = 0;
    while i < n
        invariant
            n == kw@.len(),
            hi - lo == n,
            lo <= hi <= w@.len(),
            sub == w@.subrange(lo as int, hi as int),
            i <= n,
            forall|j: int| 0 <= j < i ==> same_letter(#[trigger] sub[j], kw@[j]),
        decreases n - i,
    {
        let c = kw.get_char(i);
        if !same_letter_exec(w[lo + i], c) {
            assert(sub[i as int] == w@[lo + i]);
            return false;
        }
        i = i + 1;
    }
    true
}

fn base_kind_at(w: &Vec<char>, lo: usize, hi: usize) -> (r: Option<Kind>)
    requires
        lo <= hi <= w@.len(),
    ensures
        r == base_kind(w@.subrange(lo as int, hi as int)),
{
    if word_is_at(w, lo, hi, "POINT") {
        Some(Kind::Point)
    } else if word_is_at(w, lo, hi, "LINESTRING") || word_is_at(w, lo, hi, "LINEARRING") {
        Some(Kind::LineString)
    } else if word_is_at(w, lo, hi, "POLYGON") {
        Some(Kind::Polygon)
    } else if word_is_at(w, lo, hi, "MULTIPOINT") {
        Some(Kind::MultiPoint)
    } else if word_is_at(w, lo, hi, "MULTILINESTRING") {
        Some(Kind::MultiLineString)
    } else if word_is_at(w, lo, hi, "MULTIPOLYGON") {
        Some(Kind::MultiPolygon)
    } else if word_is_at(w, lo, hi, "GEOMETRYCOLLECTION") {
        Some(Kind::GeometryCollection)
    } else {
        None
    }
}

fn marker_dim_at(w: &Vec<char>, lo: usize, hi: usize) -> (r: Option<Dimension>)
    requires
        lo <= hi <= w@.len(),
    ensures
        r == marker_dim(w@.subrange(lo as int, hi as int)),
{
    if word_is_at(w, lo, hi, "Z") {
        Some(Dimension::XYZ)
    } else if word_is_at(w, lo, hi, "M") {
        Some(Dimension::XYM)
    } else if word_is_at(w, lo, hi, "ZM") {
        Some(Dimension::XYZM)
    } else {
        None
    }
}

/// The kind a keyword names, with its fused marker.
fn word_kind_of(w: &Vec<char>) -> (r: Option<(Kind, Option<Dimension>)>)
    ensures
        r == word_kind(w@),
{
    let n = w.len();
    proof {
        assert(w@.subrange(0, n as int) =~= w@);
    }
    if let Some(k) = base_kind_at(w, 0, n) {
        return Some((k, None));
    }
    if n >= 2 {
        proof {
            assert(w@.skip(n - 2) =~= w@.subrange(n - 2, n as int));
            assert(w@.take(n - 2) =~= w@.subrange(0, n - 2));
        }
        if let Some(d) = marker_dim_at(w, n - 2, n) {
            if let Some(k) = base_kind_at(w, 0, n - 2) {
                return Some((k, Some(d)));
            }
        }
    }
    if n >= 1 {
        proof {
            assert(w@.skip(n - 1) =~= w@.subrange(n - 1, n as int));
            assert(w@.take(n - 1) =~= w@.subrange(0, n - 1));
        }
        if let Some(d) = marker_dim_at(w, n - 1, n) {
            if let Some(k) = base_kind_at(w, 0, n - 1) {
                return Some((k, Some(d)));
            }
        }
    }
    None
}

fn word_is_exec(w: &Vec<char>, kw: &str) -> (r: bool)
    ensures
        r == word_is(w@, kw@),
{
    proof {
        assert(w@.subrange(0, w@.len() as int) =~= w@);
    }
    word_is_at(w, 0, w.len(), kw)
}

fn past_end_exec<T>(ts: &Tokens<T>, msg: &'static str) -> (r: &'static str)
    ensures
        r == past_end(*ts, msg),
{
    match ts.fault {
        Some(e) => e,
        None => msg,
    }
}

fn number_at_exec<T: Copy>(ts: &Tokens<T>, pos: usize, msg: &'static str) -> (r: Result<T, &'static str>)
    ensures
        r == number_at(*ts, pos as int, msg),
{
    if pos < ts.toks.len() {
        match &ts.toks[pos] {
            Token::Number(v) => Ok(*v),
            _ => Err(msg),
        }
    } else {
        Err(past_end_exec(ts, msg))
    }
}

fn arity_of(d: Dimension) -> (r: usize)
    ensures
        r == arity(d),
{
    match d {
        Dimension::XY => 2,
        Dimension::XYZ => 3,
        Dimension::XYM => 3,
        Dimension::XYZM => 4,
    }
}

fn component_at_exec<T: Copy>(ts: &Tokens<T>, wanted: bool, pos: usize, msg: &'static str) -> (r: Result<Option<T>, &'static str>)
    ensures
        r == component_at(*ts, wanted, pos as int, msg),
        wanted && r is Ok ==> pos < ts.toks@.len(),
{
    if wanted {
        match number_at_exec(ts, pos, msg) {
            Ok(v) => Ok(Some(v)),
            Err(e) => Err(e),
        }
    } else {
        Ok(None)
    }
}

fn coord_at_exec<T: Copy>(ts: &Tokens<T>, dim: Dimension, pos: usize) -> (r: Result<Coord<T>, &'static str>)
    requires
        pos <= ts.toks@.len(),
    ensures
        match r {
            Ok(c) => coord_at(*ts, dim, pos as int) == Ok::<(Coord<T>, nat), &'static str>((c, arity(dim)))
                && pos + arity(dim) <= ts.toks@.len(),
            Err(e) => coord_at(*ts, dim, pos as int) == Err::<(Coord<T>, nat), &'static str>(e),
        },
{
    let len = ts.toks.len();
    let x = match number_at_exec(ts, pos, EXPECTED_X) {
        Ok(v) => v,
        Err(e) => return Err(e),
    };
    assert(pos < ts.toks@.len());
    let y = match number_at_exec(ts, pos + 1, EXPECTED_Y) {
        Ok(v) => v,
        Err(e) => return Err(e),
    };
    assert(pos + 1 < ts.toks@.len());
    let zw = dim == Dimension::XYZ || dim == Dimension::XYZM;
    let mw = dim == Dimension::XYM || dim == Dimension::XYZM;
    let z = match component_at_exec(ts, zw, pos + 2, EXPECTED_Z) {
        Ok(v) => v,
        Err(e) => return Err(e),
    };
    let mpos = if zw { pos + 3 } else { pos + 2 };
    let m = match component_at_exec(ts, mw, mpos, EXPECTED_M) {
        Ok(v) => v,
        Err(e) => return Err(e),
    };
    Ok(Coord { x, y, z, m })
}

/// Reads the dimension of a header whose marker is not fused to its keyword.
pub fn infer_geom_dimension<T>(ts: &Tokens<T>, pos: usize) -> (r: Result<(Dimension, usize), &'static str>)
    requires
        pos <= ts.toks@.len(),
    ensures
        match r {
            Ok((d, c)) => infer_dim(*ts, pos as int) == Ok::<(Dimension, nat), &'static str>((d, c as nat))
                && c <= 1 && pos + c <= ts.toks@.len(),
            Err(e) => infer_dim(*ts, pos as int) == Err::<(Dimension, nat), &'static str>(e),
        },
{
    if pos < ts.toks.len() {
        match &ts.toks[pos] {
            Token::Word(w) => {
                let m = marker_dim_at(w, 0, w.len());
                proof {
                    assert(w@.subrange(0, w@.len() as int) =~= w@);
                }
                match m {
                    Some(d) => Ok((d, 1)),
                    None => if word_is_exec(w, "EMPTY") {
                        Ok((Dimension::XY, 0))
                    } else {
                        Err(UNEXPECTED_WORD)
                    },
                }
            },
            _ => Ok((Dimension::XY, 0)),
        }
    } else {
        Err(past_end_exec(ts, END_OF_STREAM))
    }
}


/// The list `items` parsed from `pos`, once the item that starts it has been read:
/// the items after a comma, or nothing.
pub open spec fn more<T>(ts: Tokens<T>, it: Item, dim: Dimension, pos: int, depth: nat) -> Result<(Seq<Shape<T>>, nat), &'static str> {
    if is_comma_at(ts, pos) {
        match items(ts, it, dim, pos + 1, depth) {
            Err(e) => Err(e),
            Ok((ss, m)) => Ok((ss, m + 1)),
        }
    } else {
        Ok((seq![], 0nat))
    }
}

pub open spec fn glue<T>(done: Seq<Shape<T>>, used: nat, rest: Result<(Seq<Shape<T>>, nat), &'static str>) -> Result<(Seq<Shape<T>>, nat), &'static str> {
    match rest {
        Err(e) => Err(e),
        Ok((ss, m)) => Ok((done + ss, used + m)),
    }
}

/// `r` is the exec outcome of the spec outcome `s` of a parse from `pos`.
pub open spec fn read_as<T>(r: Result<(Wkt<T>, usize), &'static str>, pos: int, s: Result<(Shape<T>, nat), &'static str>) -> bool {
    match r {
        Ok((g, p)) => p >= pos && s == Ok::<(Shape<T>, nat), &'static str>((shape_of(g), (p - pos) as nat)),
        Err(e) => s == Err::<(Shape<T>, nat), &'static str>(e),
    }
}

proof fn lemma_list_start<T>(ts: Tokens<T>, it: Item, dim: Dimension, pos: int, depth: nat, s: Shape<T>, n: nat)
    requires
        item(ts, it, dim, pos, depth) == Ok::<(Shape<T>, nat), &'static str>((s, n)),
    ensures
        items(ts, it, dim, pos, depth) == glue(seq![s], n, more(ts, it, dim, pos + n, depth)),
{
    if !is_comma_at(ts, pos + n) {
        assert(seq![s] + seq![] =~= seq![s]);
    }
}

proof fn lemma_list_step<T>(ts: Tokens<T>, it: Item, dim: Dimension, start: int, p: int, depth: nat, done: Seq<Shape<T>>, s: Shape<T>, n: nat)
    requires
        is_comma_at(ts, p),
        p >= start,
        item(ts, it, dim, p + 1, depth) == Ok::<(Shape<T>, nat), &'static str>((s, n)),
    ensures
        glue(done, (p - start) as nat, more(ts, it, dim, p, depth))
            == glue(done.push(s), (p + 1 + n - start) as nat, more(ts, it, dim, p + 1 + n, depth)),
{
    if is_comma_at(ts, p + 1 + n) {
        match items(ts, it, dim, p + 1 + n + 1, depth) {
            Err(e) => {},
            Ok((ss, m)) => {
                assert(done + (seq![s] + ss) =~= done.push(s) + ss);
            },
        }
    } else {
        assert(done + (seq![s] + seq![]) =~= done.push(s) + seq![]);
    }
}

proof fn lemma_list_fail<T>(ts: Tokens<T>, it: Item, dim: Dimension, start: int, p: int, depth: nat, done: Seq<Shape<T>>, e: &'static str)
    requires
        is_comma_at(ts, p),
        item(ts, it, dim, p + 1, depth) == Err::<(Shape<T>, nat), &'static str>(e),
    ensures
        glue(done, (p - start) as nat, more(ts, it, dim, p, depth)) == Err::<(Seq<Shape<T>>, nat), &'static str>(e),
{
}

proof fn lemma_list_end<T>(ts: Tokens<T>, it: Item, dim: Dimension, start: int, p: int, depth: nat, done: Seq<Shape<T>>)
    requires
        !is_comma_at(ts, p),
        p >= start,
    ensures
        glue(done, (p - start) as nat, more(ts, it, dim, p, depth)) == Ok::<(Seq<Shape<T>>, nat), &'static str>((done, (p - start) as nat)),
{
    assert(done + seq![] =~= done);
}

pub open spec fn coord_shapes<T>(v: Seq<Coord<T>>) -> Seq<Shape<T>> {
    v.map_values(|c: Coord<T>| Shape::Point(Some(c)))
}

pub open spec fn point_shapes<T>(v: Seq<Point<T>>) -> Seq<Shape<T>> {
    v.map_values(|p: Point<T>| Shape::Point(p.0))
}

pub open spec fn line_shapes<T>(v: Seq<LineString<T>>) -> Seq<Shape<T>> {
    v.map_values(|l: LineString<T>| Shape::LineString(l.0@))
}

pub open spec fn polygon_shapes<T>(v: Seq<Polygon<T>>) -> Seq<Shape<T>> {
    v.map_values(|p: Polygon<T>| Shape::Polygon(crate::types::polygon_shape(p)))
}

pub open spec fn member_shapes<T>(v: Seq<Wkt<T>>) -> Seq<Shape<T>> {
    v.map_values(|g: Wkt<T>| shape_of(g))
}

proof fn lemma_coord_shapes_push<T>(cs: Seq<Coord<T>>, c: Coord<T>)
    ensures
        coord_shapes(cs.push(c)) == coord_shapes(cs).push(Shape::Point(Some(c))),
{
    assert(coord_shapes(cs.push(c)) =~= coord_shapes(cs).push(Shape::Point(Some(c))));
}

proof fn lemma_point_shapes_push<T>(ps: Seq<Point<T>>, p: Point<T>)
    ensures
        point_shapes(ps.push(p)) == point_shapes(ps).push(Shape::Point(p.0)),
{
    assert(point_shapes(ps.push(p)) =~= point_shapes(ps).push(Shape::Point(p.0)));
}

proof fn lemma_line_shapes_push<T>(ls: Seq<LineString<T>>, l: LineString<T>)
    ensures
        line_shapes(ls.push(l)) == line_shapes(ls).push(Shape::LineString(l.0@)),
{
    assert(line_shapes(ls.push(l)) =~= line_shapes(ls).push(Shape::LineString(l.0@)));
}

proof fn lemma_polygon_shapes_push<T>(qs: Seq<Polygon<T>>, q: Polygon<T>)
    ensures
        polygon_shapes(qs.push(q)) == polygon_shapes(qs).push(Shape::Polygon(crate::types::polygon_shape(q))),
{
    assert(polygon_shapes(qs.push(q)) =~= polygon_shapes(qs).push(Shape::Polygon(crate::types::polygon_shape(q))));
}

proof fn lemma_member_shapes_push<T>(gs: Seq<Wkt<T>>, g: Wkt<T>)
    ensures
        member_shapes(gs.push(g)) == member_shapes(gs).push(shape_of(g)),
{
    assert(member_shapes(gs.push(g)) =~= member_shapes(gs).push(shape_of(g)));
}

fn coords_exec<T: Copy>(ts: &Tokens<T>, dim: Dimension, pos: usize, depth: usize) -> (r: Result<(Vec<Coord<T>>, usize), &'static str>)
    requires
        pos <= ts.toks@.len(),
    ensures
        match r {
            Ok((v, p)) => pos <= p <= ts.toks@.len() && items(*ts, Item::Coord, dim, pos as int, depth as nat)
                == Ok::<(Seq<Shape<T>>, nat), &'static str>((coord_shapes(v@), (p - pos) as nat)),
            Err(e) => items(*ts, Item::Coord, dim, pos as int, depth as nat) == Err::<(Seq<Shape<T>>, nat), &'static str>(e),
        },
{
    let len = ts.toks.len();
    let first = match coord_at_exec(ts, dim, pos) {
        Ok(c) => c,
        Err(e) => {
            assert(item(*ts, Item::Coord, dim, pos as int, depth as nat) == Err::<(Shape<T>, nat), &'static str>(e));
            return Err(e);
        },
    };
    let mut v: Vec<Coord<T>> = Vec::new();
    v.push(first);
    let ar = arity_of(dim);
    let mut p = pos + ar;
    proof {
        lemma_list_start(*ts, Item::Coord, dim, pos as int, depth as nat, Shape::Point(Some(first)), arity(dim));
        assert(coord_shapes(v@) =~= seq![Shape::Point(Some(first))]);
    }
    while p < len && matches!(ts.toks[p], Token::Comma)
        invariant
            len == ts.toks@.len(),
            pos <= p <= len,
            ar == arity(dim),
            items(*ts, Item::Coord, dim, pos as int, depth as nat) == glue(coord_shapes(v@), (p - pos) as nat, more(*ts, Item::Coord, dim, p as int, depth as nat)),
        decreases len - p,
    {
        proof {
            assert(is_comma_at(*ts, p as int));
        }
        match coord_at_exec(ts, dim, p + 1) {
            Ok(c) => {
                proof {
                    lemma_list_step(*ts, Item::Coord, dim, pos as int, p as int, depth as nat, coord_shapes(v@), Shape::Point(Some(c)), arity(dim));
                }
                let ghost old_v = v@;
                v.push(c);
                proof {
                    lemma_coord_shapes_push(old_v, c);
                }
                p = p + 1 + ar;
            },
            Err(e) => {
                proof {
                    lemma_list_fail(*ts, Item::Coord, dim, pos as int, p as int, depth as nat, coord_shapes(v@), e);
                }
                return Err(e);
            },
        }
    }
    proof {
        assert(!is_comma_at(*ts, p as int));
        lemma_list_end(*ts, Item::Coord, dim, pos as int, p as int, depth as nat, coord_shapes(v@));
    }
    Ok((v, p))
}


fn ring_item_exec<T: Copy>(ts: &Tokens<T>, dim: Dimension, pos: usize, depth: usize) -> (r: Result<(LineString<T>, usize), &'static str>)
    requires
        pos <= ts.toks@.len(),
        depth <= MAX_DEPTH,
    ensures
        match r {
            Ok((x, p)) => pos <= p <= ts.toks@.len() && item(*ts, Item::Ring, dim, pos as int, depth as nat)
                == Ok::<(Shape<T>, nat), &'static str>((Shape::LineString(x.0@), (p - pos) as nat)),
            Err(e) => item(*ts, Item::Ring, dim, pos as int, depth as nat) == Err::<(Shape<T>, nat), &'static str>(e),
        },
    decreases ts.toks@.len() - pos, 2nat,
{
    match body_exec(ts, Kind::LineString, dim, pos, depth) {
        Ok((g, p)) => match g {
            Wkt::LineString(x) => Ok((x, p)),
            _ => {
                proof {
                    assert(false);
                }
                Err(INVALID_TYPE)
            },
        },
        Err(e) => Err(e),
    }
}

fn polygon_item_exec<T: Copy>(ts: &Tokens<T>, dim: Dimension, pos: usize, depth: usize) -> (r: Result<(Polygon<T>, usize), &'static str>)
    requires
        pos <= ts.toks@.len(),
        depth <= MAX_DEPTH,
    ensures
        match r {
            Ok((x, p)) => pos <= p <= ts.toks@.len() && item(*ts, Item::Polygon, dim, pos as int, depth as nat)
                == Ok::<(Shape<T>, nat), &'static str>((Shape::Polygon(crate::types::polygon_shape(x)), (p - pos) as nat)),
            Err(e) => item(*ts, Item::Polygon, dim, pos as int, depth as nat) == Err::<(Shape<T>, nat), &'static str>(e),
        },
    decreases ts.toks@.len() - pos, 2nat,
{
    match body_exec(ts, Kind::Polygon, dim, pos, depth) {
        Ok((g, p)) => match g {
            Wkt::Polygon(x) => Ok((x, p)),
            _ => {
                proof {
                    assert(false);
                }
                Err(INVALID_TYPE)
            },
        },
        Err(e) => Err(e),
    }
}

fn point_item_exec<T: Copy>(ts: &Tokens<T>, dim: Dimension, pos: usize, depth: usize) -> (r: Result<(Point<T>, usize), &'static str>)
    requires
        pos <= ts.toks@.len(),
        depth <= MAX_DEPTH,
    ensures
        match r {
            Ok((x, p)) => pos <= p <= ts.toks@.len() && item(*ts, Item::Point, dim, pos as int, depth as nat)
                == Ok::<(Shape<T>, nat), &'static str>((Shape::Point(x.0), (p - pos) as nat)),
            Err(e) => item(*ts, Item::Point, dim, pos as int, depth as nat) == Err::<(Shape<T>, nat), &'static str>(e),
        },
    decreases ts.toks@.len() - pos, 2nat,
{
    if pos < ts.toks.len() && (matches!(ts.toks[pos], Token::ParenOpen) || matches!(ts.toks[pos], Token::Word(_))) {
        match body_exec(ts, Kind::Point, dim, pos, depth) {
            Ok((g, p)) => match g {
                Wkt::Point(x) => Ok((x, p)),
                _ => {
                    proof {
                        assert(false);
                    }
                    Err(INVALID_TYPE)
                },
            },
            Err(e) => Err(e),
        }
    } else {
        match coord_at_exec(ts, dim, pos) {
            Ok(c) => Ok((Point(Some(c)), pos + arity_of(dim))),
            Err(e) => Err(e),
        }
    }
}

fn member_item_exec<T: Copy>(ts: &Tokens<T>, dim: Dimension, pos: usize, depth: usize) -> (r: Result<(Wkt<T>, usize), &'static str>)
    requires
        pos <= ts.toks@.len(),
        depth <= MAX_DEPTH,
    ensures
        match r {
            Ok((x, p)) => pos <= p <= ts.toks@.len() && item(*ts, Item::Member, dim, pos as int, depth as nat)
                == Ok::<(Shape<T>, nat), &'static str>((shape_of(x), (p - pos) as nat)),
            Err(e) => item(*ts, Item::Member, dim, pos as int, depth as nat) == Err::<(Shape<T>, nat), &'static str>(e),
        },
    decreases ts.toks@.len() - pos, 2nat,
{
    if pos < ts.toks.len() {
        match &ts.toks[pos] {
            Token::Word(w) => match Wkt::from_word_and_tokens(w, ts, pos + 1, depth) {
                Ok((g, p)) => Ok((g, p)),
                Err(e) => Err(e),
            },
            _ => Err(EXPECTED_MEMBER_WORD),
        }
    } else {
        Err(past_end_exec(ts, EXPECTED_MEMBER_WORD))
    }
}

fn rings_exec<T: Copy>(ts: &Tokens<T>, dim: Dimension, pos: usize, depth: usize) -> (r: Result<(Vec<LineString<T>>, usize), &'static str>)
    requires
        pos <= ts.toks@.len(),
        depth <= MAX_DEPTH,
    ensures
        match r {
            Ok((v, p)) => pos <= p <= ts.toks@.len() && items(*ts, Item::Ring, dim, pos as int, depth as nat)
                == Ok::<(Seq<Shape<T>>, nat), &'static str>((line_shapes(v@), (p - pos) as nat)),
            Err(e) => items(*ts, Item::Ring, dim, pos as int, depth as nat) == Err::<(Seq<Shape<T>>, nat), &'static str>(e),
        },
    decreases ts.toks@.len() - pos, 3nat,
{
    let len = ts.toks.len();
    let (first, mut p) = match ring_item_exec(ts, dim, pos, depth) {
        Ok(x) => x,
        Err(e) => return Err(e),
    };
    let mut v: Vec<LineString<T>> = Vec::new();
    v.push(first);
    proof {
        lemma_list_start(*ts, Item::Ring, dim, pos as int, depth as nat, Shape::LineString(first.0@), (p - pos) as nat);
        assert(line_shapes(v@) =~= seq![Shape::LineString(first.0@)]);
    }
    while p < len && matches!(ts.toks[p], Token::Comma)
        invariant
            len == ts.toks@.len(),
            pos <= p <= len,
            depth <= MAX_DEPTH,
            items(*ts, Item::Ring, dim, pos as int, depth as nat) == glue(line_shapes(v@), (p - pos) as nat, more(*ts, Item::Ring, dim, p as int, depth as nat)),
        decreases len - p,
    {
        proof {
            assert(is_comma_at(*ts, p as int));
        }
        match ring_item_exec(ts, dim, p + 1, depth) {
            Ok((x, q)) => {
                proof {
                    lemma_list_step(*ts, Item::Ring, dim, pos as int, p as int, depth as nat, line_shapes(v@), Shape::LineString(x.0@), (q - p - 1) as nat);
                }
                let ghost old_v = v@;
                v.push(x);
                proof {
                    lemma_line_shapes_push(old_v, x);
                }
                p = q;
            },
            Err(e) => {
                proof {
                    lemma_list_fail(*ts, Item::Ring, dim, pos as int, p as int, depth as nat, line_shapes(v@), e);
                }
                return Err(e);
            },
        }
    }
    proof {
        assert(!is_comma_at(*ts, p as int));
        lemma_list_end(*ts, Item::Ring, dim, pos as int, p as int, depth as nat, line_shapes(v@));
    }
    Ok((v, p))
}

fn polygons_exec<T: Copy>(ts: &Tokens<T>, dim: Dimension, pos: usize, depth: usize) -> (r: Result<(Vec<Polygon<T>>, usize), &'static str>)
    requires
        pos <= ts.toks@.len(),
        depth <= MAX_DEPTH,
    ensures
        match r {
            Ok((v, p)) => pos <= p <= ts.toks@.len() && items(*ts, Item::Polygon, dim, pos as int, depth as nat)
                == Ok::<(Seq<Shape<T>>, nat), &'static str>((polygon_shapes(v@), (p - pos) as nat)),
            Err(e) => items(*ts, Item::Polygon, dim, pos as int, depth as nat) == Err::<(Seq<Shape<T>>, nat), &'static str>(e),
        },
    decreases ts.toks@.len() - pos, 3nat,
{
    let len = ts.toks.len();
    let (first, mut p) = match polygon_item_exec(ts, dim, pos, depth) {
        Ok(x) => x,
        Err(e) => return Err(e),
    };
    let mut v: Vec<Polygon<T>> = Vec::new();
    v.push(first);
    proof {
        lemma_list_start(*ts, Item::Polygon, dim, pos as int, depth as nat, Shape::Polygon(crate::types::polygon_shape(first)), (p - pos) as nat);
        assert(polygon_shapes(v@) =~= seq![Shape::Polygon(crate::types::polygon_shape(first))]);
    }
    while p < len && matches!(ts.toks[p], Token::Comma)
        invariant
            len == ts.toks@.len(),
            pos <= p <= len,
            depth <= MAX_DEPTH,
            items(*ts, Item::Polygon, dim, pos as int, depth as nat) == glue(polygon_shapes(v@), (p - pos) as nat, more(*ts, Item::Polygon, dim, p as int, depth as nat)),
        decreases len - p,
    {
        proof {
            assert(is_comma_at(*ts, p as int));
        }
        match polygon_item_exec(ts, dim, p + 1, depth) {
            Ok((x, q)) => {
                proof {
                    lemma_list_step(*ts, Item::Polygon, dim, pos as int, p as int, depth as nat, polygon_shapes(v@), Shape::Polygon(crate::types::polygon_shape(x)), (q - p - 1) as nat);
                }
                let ghost old_v = v@;
                v.push(x);
                proof {
                    lemma_polygon_shapes_push(old_v, x);
                }
                p = q;
            },
            Err(e) => {
                proof {
                    lemma_list_fail(*ts, Item::Polygon, dim, pos as int, p as int, depth as nat, polygon_shapes(v@), e);
                }
                return Err(e);
            },
        }
    }
    proof {
        assert(!is_comma_at(*ts, p as int));
        lemma_list_end(*ts, Item::Polygon, dim, pos as int, p as int, depth as nat, polygon_shapes(v@));
    }
    Ok((v, p))
}

fn points_exec<T: Copy>(ts: &Tokens<T>, dim: Dimension, pos: usize, depth: usize) -> (r: Result<(Vec<Point<T>>, usize), &'static str>)
    requires
        pos <= ts.toks@.len(),
        depth <= MAX_DEPTH,
    ensures
        match r {
            Ok((v, p)) => pos <= p <= ts.toks@.len() && items(*ts, Item::Point, dim, pos as int, depth as nat)
                == Ok::<(Seq<Shape<T>>, nat), &'static str>((point_shapes(v@), (p - pos) as nat)),
            Err(e) => items(*ts, Item::Point, dim, pos as int, depth as nat) == Err::<(Seq<Shape<T>>, nat), &'static str>(e),
        },
    decreases ts.toks@.len() - pos, 3nat,
{
    let len = ts.toks.len();
    let (first, mut p) = match point_item_exec(ts, dim, pos, depth) {
        Ok(x) => x,
        Err(e) => return Err(e),
    };
    let mut v: Vec<Point<T>> = Vec::new();
    v.push(first);
    proof {
        lemma_list_start(*ts, Item::Point, dim, pos as int, depth as nat, Shape::Point(first.0), (p - pos) as nat);
        assert(point_shapes(v@) =~= seq![Shape::Point(first.0)]);
    }
    while p < len && matches!(ts.toks[p], Token::Comma)
        invariant
            len == ts.toks@.len(),
            pos <= p <= len,
            depth <= MAX_DEPTH,
            items(*ts, Item::Point, dim, pos as int, depth as nat) == glue(point_shapes(v@), (p - pos) as nat, more(*ts, Item::Point, dim, p as int, depth as nat)),
        decreases len - p,
    {
        proof {
            assert(is_comma_at(*ts, p as int));
        }
        match point_item_exec(ts, dim, p + 1, depth) {
            Ok((x, q)) => {
                proof {
                    lemma_list_step(*ts, Item::Point, dim, pos as int, p as int, depth as nat, point_shapes(v@), Shape::Point(x.0), (q - p - 1) as nat);
                }
                let ghost old_v = v@;
                v.push(x);
                proof {
                    lemma_point_shapes_push(old_v, x);
                }
                p = q;
            },
            Err(e) => {
                proof {
                    lemma_list_fail(*ts, Item::Point, dim, pos as int, p as int, depth as nat, point_shapes(v@), e);
                }
                return Err(e);
            },
        }
    }
    proof {
        assert(!is_comma_at(*ts, p as int));
        lemma_list_end(*ts, Item::Point, dim, pos as int, p as int, depth as nat, point_shapes(v@));
    }
    Ok((v, p))
}

fn members_exec<T: Copy>(ts: &Tokens<T>, dim: Dimension, pos: usize, depth: usize) -> (r: Result<(Vec<Wkt<T>>, usize), &'static str>)
    requires
        pos <= ts.toks@.len(),
        depth <= MAX_DEPTH,
    ensures
        match r {
            Ok((v, p)) => pos <= p <= ts.toks@.len() && items(*ts, Item::Member, dim, pos as int, depth as nat)
                == Ok::<(Seq<Shape<T>>, nat), &'static str>((member_shapes(v@), (p - pos) as nat)),
            Err(e) => items(*ts, Item::Member, dim, pos as int, depth as nat) == Err::<(Seq<Shape<T>>, nat), &'static str>(e),
        },
    decreases ts.toks@.len() - pos, 3nat,
{
    let len = ts.toks.len();
    let (first, mut p) = match member_item_exec(ts, dim, pos, depth) {
        Ok(x) => x,
        Err(e) => return Err(e),
    };
    let mut v: Vec<Wkt<T>> = Vec::new();
    v.push(first);
    proof {
        lemma_list_start(*ts, Item::Member, dim, pos as int, depth as nat, shape_of(first), (p - pos) as nat);
        assert(member_shapes(v@) =~= seq![shape_of(first)]);
    }
    while p < len && matches!(ts.toks[p], Token::Comma)
        invariant
            len == ts.toks@.len(),
            pos <= p <= len,
            depth <= MAX_DEPTH,
            items(*ts, Item::Member, dim, pos as int, depth as nat) == glue(member_shapes(v@), (p - pos) as nat, more(*ts, Item::Member, dim, p as int, depth as nat)),
        decreases len - p,
    {
        proof {
            assert(is_comma_at(*ts, p as int));
        }
        match member_item_exec(ts, dim, p + 1, depth) {
            Ok((x, q)) => {
                proof {
                    lemma_list_step(*ts, Item::Member, dim, pos as int, p as int, depth as nat, member_shapes(v@), shape_of(x), (q - p - 1) as nat);
                }
                let ghost old_v = v@;
                v.push(x);
                proof {
                    lemma_member_shapes_push(old_v, x);
                }
                p = q;
            },
            Err(e) => {
                proof {
                    lemma_list_fail(*ts, Item::Member, dim, pos as int, p as int, depth as nat, member_shapes(v@), e);
                }
                return Err(e);
            },
        }
    }
    proof {
        assert(!is_comma_at(*ts, p as int));
        lemma_list_end(*ts, Item::Member, dim, pos as int, p as int, depth as nat, member_shapes(v@));
    }
    Ok((v, p))
}

fn body_exec<T: Copy>(ts: &Tokens<T>, k: Kind, dim: Dimension, pos: usize, depth: usize) -> (r: Result<(Wkt<T>, usize), &'static str>)
    requires
        pos <= ts.toks@.len(),
        depth <= MAX_DEPTH,
    ensures
        read_as(r, pos as int, body(*ts, k, dim, pos as int, depth as nat)),
        r is Ok ==> r->Ok_0.1 <= ts.toks@.len(),
    decreases ts.toks@.len() - pos, 0nat,
{
    if pos < ts.toks.len() {
        match &ts.toks[pos] {
            Token::ParenOpen => {
                let (g, p) = match inner_exec(ts, k, dim, pos + 1, depth) {
                    Ok(x) => x,
                    Err(e) => return Err(e),
                };
                if p < ts.toks.len() {
                    match &ts.toks[p] {
                        Token::ParenClose => Ok((g, p + 1)),
                        _ => Err(MISSING_CLOSE),
                    }
                } else {
                    Err(past_end_exec(ts, MISSING_CLOSE))
                }
            },
            Token::Word(w) => if word_is_exec(w, "EMPTY") {
                let g = empty_of(k);
                Ok((g, pos + 1))
            } else {
                Err(MISSING_OPEN)
            },
            _ => Err(MISSING_OPEN),
        }
    } else {
        Err(past_end_exec(ts, MISSING_OPEN))
    }
}

fn empty_of<T>(k: Kind) -> (g: Wkt<T>)
    ensures
        shape_of(g) == empty_shape::<T>(k),
{
    match k {
        Kind::Point => Wkt::Point(Point(None)),
        Kind::LineString => Wkt::LineString(LineString(Vec::new())),
        Kind::Polygon => {
            let g = Wkt::Polygon(Polygon(Vec::new()));
            assert(shape_of(g)->Polygon_0 =~= seq![]);
            g
        },
        Kind::MultiPoint => {
            let g = Wkt::MultiPoint(MultiPoint(Vec::new()));
            assert(shape_of(g)->MultiPoint_0 =~= seq![]);
            g
        },
        Kind::MultiLineString => {
            let g = Wkt::MultiLineString(MultiLineString(Vec::new()));
            assert(shape_of(g)->MultiLineString_0 =~= seq![]);
            g
        },
        Kind::MultiPolygon => {
            let g = Wkt::MultiPolygon(MultiPolygon(Vec::new()));
            assert(shape_of(g)->MultiPolygon_0 =~= seq![]);
            g
        },
        Kind::GeometryCollection => {
            let g = Wkt::GeometryCollection(GeometryCollection(Vec::new()));
            assert(shape_of(g)->GeometryCollection_0 =~= seq![]);
            g
        },
    }
}

fn inner_exec<T: Copy>(ts: &Tokens<T>, k: Kind, dim: Dimension, pos: usize, depth: usize) -> (r: Result<(Wkt<T>, usize), &'static str>)
    requires
        pos <= ts.toks@.len(),
        depth <= MAX_DEPTH,
    ensures
        read_as(r, pos as int, inner(*ts, k, dim, pos as int, depth as nat)),
        r is Ok ==> r->Ok_0.1 <= ts.toks@.len(),
    decreases ts.toks@.len() - pos, if k == Kind::Point { 1nat } else { 4nat },
{
    let _len = ts.toks.len();
    match k {
        Kind::Point => match coord_at_exec(ts, dim, pos) {
            Ok(c) => Ok((Wkt::Point(Point(Some(c))), pos + arity_of(dim))),
            Err(e) => Err(e),
        },
        Kind::LineString => match coords_exec(ts, dim, pos, depth) {
            Ok((v, p)) => {
                let g = Wkt::LineString(LineString(v));
                proof {
                    assert(coords_of(coord_shapes(v@)) =~= v@);
                }
                Ok((g, p))
            },
            Err(e) => Err(e),
        },
        Kind::Polygon => match rings_exec(ts, dim, pos, depth) {
            Ok((v, p)) => {
                let g = Wkt::Polygon(Polygon(v));
                proof {
                    assert(rings_of(line_shapes(v@)) =~= shape_of(g)->Polygon_0);
                }
                Ok((g, p))
            },
            Err(e) => Err(e),
        },
        Kind::MultiPoint => match points_exec(ts, dim, pos, depth) {
            Ok((v, p)) => {
                let g = Wkt::MultiPoint(MultiPoint(v));
                proof {
                    assert(points_of(point_shapes(v@)) =~= shape_of(g)->MultiPoint_0);
                }
                Ok((g, p))
            },
            Err(e) => Err(e),
        },
        Kind::MultiLineString => match rings_exec(ts, dim, pos, depth) {
            Ok((v, p)) => {
                let g = Wkt::MultiLineString(MultiLineString(v));
                proof {
                    assert(rings_of(line_shapes(v@)) =~= shape_of(g)->MultiLineString_0);
                }
                Ok((g, p))
            },
            Err(e) => Err(e),
        },
        Kind::MultiPolygon => match polygons_exec(ts, dim, pos, depth) {
            Ok((v, p)) => {
                let g = Wkt::MultiPolygon(MultiPolygon(v));
                proof {
                    assert(polygons_of(polygon_shapes(v@)) =~= shape_of(g)->MultiPolygon_0);
                }
                Ok((g, p))
            },
            Err(e) => Err(e),
        },
        Kind::GeometryCollection => if depth >= MAX_DEPTH {
            Err(TOO_DEEP)
        } else {
            match members_exec(ts, dim, pos, depth + 1) {
                Ok((v, p)) => {
                    let g = Wkt::GeometryCollection(GeometryCollection(v));
                    proof {
                        assert(member_shapes(v@) =~= shape_of(g)->GeometryCollection_0);
                    }
                    Ok((g, p))
                },
                Err(e) => Err(e),
            }
        },
    }
}

fn tagged_exec<T: Copy>(ts: &Tokens<T>, k: Kind, fused: Option<Dimension>, pos: usize, depth: usize) -> (r: Result<(Wkt<T>, usize), &'static str>)
    requires
        pos <= ts.toks@.len(),
        depth <= MAX_DEPTH,
    ensures
        read_as(r, pos as int, tagged(*ts, k, fused, pos as int, depth as nat)),
        r is Ok ==> r->Ok_0.1 <= ts.toks@.len(),
    decreases ts.toks@.len() - pos, 1nat,
{
    let _len = ts.toks.len();
    let (dim, c) = match fused {
        Some(d) => (d, 0),
        None => match infer_geom_dimension(ts, pos) {
            Ok(x) => x,
            Err(e) => return Err(e),
        },
    };
    let r = body_exec(ts, k, dim, pos + c, depth);
    proof {
        let d = match fused {
            Some(d) => Ok::<(Dimension, nat), &'static str>((d, 0nat)),
            None => infer_dim(*ts, pos as int),
        };
        assert(d == Ok::<(Dimension, nat), &'static str>((dim, c as nat)));
        assert(c == 0 || 0 <= pos < ts.toks@.len());
    }
    r
}



/// `r` is the outcome `s` of a parse, the geometry seen through its shape.
pub open spec fn parsed_as<T>(r: Result<Wkt<T>, &'static str>, s: Result<Shape<T>, &'static str>) -> bool {
    match r {
        Ok(g) => s == Ok::<Shape<T>, &'static str>(shape_of(g)),
        Err(e) => s == Err::<Shape<T>, &'static str>(e),
    }
}


impl<T: Copy> Wkt<T> {
    /// Parses the geometry that `ts` starts with.
    pub fn from_tokens(ts: &Tokens<T>) -> (r: Result<Wkt<T>, &'static str>)
        ensures
            parsed_as(r, parse_tokens(*ts)),
    {
        if ts.toks.len() == 0 {
            return Err(past_end_exec(ts, INVALID_FORMAT));
        }
        match &ts.toks[0] {
            Token::Word(w) => match Wkt::from_word_and_tokens(w, ts, 1, 0) {
                Ok((g, _)) => Ok(g),
                Err(e) => Err(e),
            },
            _ => Err(INVALID_FORMAT),
        }
    }

    /// Parses the geometry whose keyword `word` has just been read; `pos` is the
    /// position after it and `depth` the number of enclosing collections.
    pub fn from_word_and_tokens(word: &Vec<char>, ts: &Tokens<T>, pos: usize, depth: usize) -> (r: Result<(Wkt<T>, usize), &'static str>)
        requires
            pos <= ts.toks@.len(),
            depth <= MAX_DEPTH,
        ensures
            read_as(r, pos as int, from_word(*ts, word@, pos as int, depth as nat)),
            r is Ok ==> r->Ok_0.1 <= ts.toks@.len(),
        decreases ts.toks@.len() - pos, 2nat,
    {
        match word_kind_of(word) {
            None => Err(INVALID_TYPE),
            Some((k, fused)) => tagged_exec(ts, k, fused, pos, depth),
        }
    }
}

impl<T: crate::num::WktNum + std::str::FromStr> Wkt<T> {
    /// Reads the geometry that `wkt_str` starts with; what follows it is not read.
    ///
    /// The outcome is the parse of the text's tokens, whatever values its
    /// numerals were converted to.
    pub fn from_str(wkt_str: &str) -> (r: Result<Wkt<T>, &'static str>)
        ensures
            exists|ts: Tokens<T>| tokenizes(wkt_str@, ts.toks@, ts.fault) && parsed_as(r, parse_tokens(ts)),
    {
        let ts = crate::tokenizer::tokenize::<T>(wkt_str);
        Wkt::from_tokens(&ts)
    }
}

} // verus!
