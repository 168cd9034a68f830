//! Writing a geometry as canonical WKT text.
//!
//! [`wkt_outs`] states the tokens that a geometry is written as; numbers are
//! written in their type's `Display` form. The text is the tokens' texts
//! joined by [`render`]: one space between two words or numerals, nothing
//! next to a parenthesis or a comma.
use vstd::prelude::*;
use crate::tokenizer::Lexeme;
use crate::types::{
    coord_dim, points_view, polygon_shape, polygons_view, rings_view, shape_of, Coord, Dimension,
    GeometryCollection, LineString, MultiLineString, MultiPoint, MultiPolygon, Point, Polygon,
    Shape, Wkt,
};

verus! {

/// A token to be written; numbers are still values.
pub enum Out<T> {
    Word(Seq<char>),
    Num(T),
    Open,
    Close,
    Comma,
}

/// The dimension of the first coordinate of the rings from `i` on.
pub open spec fn rings_dim<T>(rs: Seq<Seq<Coord<T>>>, i: int) -> Option<Dimension>
    decreases rs.len() - i,
{
    if i < 0 || i >= rs.len() {
        None
    } else if rs[i].len() > 0 {
        Some(coord_dim(rs[i][0]))
    } else {
        rings_dim(rs, i + 1)
    }
}

/// The dimension of the first point with a coordinate, from `i` on.
pub open spec fn points_dim<T>(ps: Seq<Option<Coord<T>>>, i: int) -> Option<Dimension>
    decreases ps.len() - i,
{
    if i < 0 || i >= ps.len() {
        None
    } else if ps[i] is Some {
        Some(coord_dim(ps[i]->0))
    } else {
        points_dim(ps, i + 1)
    }
}

/// The dimension of the first coordinate of the polygons from `i` on.
pub open spec fn polygons_dim<T>(qs: Seq<Seq<Seq<Coord<T>>>>, i: int) -> Option<Dimension>
    decreases qs.len() - i,
{
    if i < 0 || i >= qs.len() {
        None
    } else if rings_dim(qs[i], 0) is Some {
        rings_dim(qs[i], 0)
    } else {
        polygons_dim(qs, i + 1)
    }
}

pub open spec fn or_xy(d: Option<Dimension>) -> Dimension {
    match d {
        Some(d) => d,
        None => Dimension::XY,
    }
}

/// The dimension a geometry is written with: that of its first coordinate,
/// `XY` where it has none; an empty point is taken as `XYZ`; a collection
/// has its first member's, `XY` where it is empty.
pub open spec fn dim_of<T>(g: Shape<T>) -> Dimension
    decreases g,
{
    match g {
        Shape::Point(Some(c)) => coord_dim(c),
        Shape::Point(None) => Dimension::XYZ,
        Shape::LineString(cs) => if cs.len() > 0 { coord_dim(cs[0]) } else { Dimension::XY },
        Shape::Polygon(rs) => or_xy(rings_dim(rs, 0)),
        Shape::MultiPoint(ps) => or_xy(points_dim(ps, 0)),
        Shape::MultiLineString(rs) => or_xy(rings_dim(rs, 0)),
        Shape::MultiPolygon(qs) => or_xy(polygons_dim(qs, 0)),
        Shape::GeometryCollection(ms) => if ms.len() > 0 { dim_of(ms[0]) } else { Dimension::XY },
    }
}

/// The marker word of a dimension, none for `XY`.
pub open spec fn marker_outs<T>(d: Dimension) -> Seq<Out<T>> {
    match d {
        Dimension::XY => seq![],
        Dimension::XYZ => seq![Out::Word("Z"@)],
        Dimension::XYM => seq![Out::Word("M"@)],
        Dimension::XYZM => seq![Out::Word("ZM"@)],
    }
}

pub open spec fn keyword<T>(g: Shape<T>) -> Seq<char> {
    match g {
        Shape::Point(_) => "POINT"@,
        Shape::LineString(_) => "LINESTRING"@,
        Shape::Polygon(_) => "POLYGON"@,
        Shape::MultiPoint(_) => "MULTIPOINT"@,
        Shape::MultiLineString(_) => "MULTILINESTRING"@,
        Shape::MultiPolygon(_) => "MULTIPOLYGON"@,
        Shape::GeometryCollection(_) => "GEOMETRYCOLLECTION"@,
    }
}

/// The keyword and the marker of the geometry's dimension.
pub open spec fn header<T>(g: Shape<T>) -> Seq<Out<T>> {
    seq![Out::Word(keyword(g))] + marker_outs(dim_of(g))
}

pub open spec fn opt_outs<T>(v: Option<T>) -> Seq<Out<T>> {
    match v {
        Some(v) => seq![Out::Num(v)],
        None => seq![],
    }
}

/// The components of a coordinate: x, y, and z and m where it has them.
pub open spec fn coord_outs<T>(c: Coord<T>) -> Seq<Out<T>> {
    seq![Out::Num(c.x), Out::Num(c.y)] + opt_outs(c.z) + opt_outs(c.m)
}

/// Coordinates separated by commas.
pub open spec fn coords_outs<T>(cs: Seq<Coord<T>>) -> Seq<Out<T>>
    decreases cs.len(),
{
    if cs.len() == 0 {
        seq![]
    } else if cs.len() == 1 {
        coord_outs(cs[0])
    } else {
        coords_outs(cs.drop_last()) + seq![Out::Comma] + coord_outs(cs.last())
    }
}

/// `(`, the items, `)`.
pub open spec fn wrap<T>(inside: Seq<Out<T>>) -> Seq<Out<T>> {
    seq![Out::Open] + inside + seq![Out::Close]
}

/// A ring or line string inside a container: `EMPTY` or its coordinates in parentheses.
pub open spec fn ring_outs<T>(r: Seq<Coord<T>>) -> Seq<Out<T>> {
    if r.len() == 0 {
        seq![Out::Word("EMPTY"@)]
    } else {
        wrap(coords_outs(r))
    }
}

pub open spec fn rings_outs<T>(rs: Seq<Seq<Coord<T>>>) -> Seq<Out<T>>
    decreases rs.len(),
{
    if rs.len() == 0 {
        seq![]
    } else if rs.len() == 1 {
        ring_outs(rs[0])
    } else {
        rings_outs(rs.drop_last()) + seq![Out::Comma] + ring_outs(rs.last())
    }
}

/// A polygon inside a multi polygon.
pub open spec fn polygon_body_outs<T>(p: Seq<Seq<Coord<T>>>) -> Seq<Out<T>> {
    if p.len() == 0 {
        seq![Out::Word("EMPTY"@)]
    } else {
        wrap(rings_outs(p))
    }
}

pub open spec fn polygons_outs<T>(qs: Seq<Seq<Seq<Coord<T>>>>) -> Seq<Out<T>>
    decreases qs.len(),
{
    if qs.len() == 0 {
        seq![]
    } else if qs.len() == 1 {
        polygon_body_outs(qs[0])
    } else {
        polygons_outs(qs.drop_last()) + seq![Out::Comma] + polygon_body_outs(qs.last())
    }
}

/// A point inside a multi point.
pub open spec fn point_member_outs<T>(p: Option<Coord<T>>) -> Seq<Out<T>> {
    match p {
        Some(c) => wrap(coord_outs(c)),
        None => seq![Out::Word("EMPTY"@)],
    }
}

pub open spec fn points_outs<T>(ps: Seq<Option<Coord<T>>>) -> Seq<Out<T>>
    decreases ps.len(),
{
    if ps.len() == 0 {
        seq![]
    } else if ps.len() == 1 {
        point_member_outs(ps[0])
    } else {
        points_outs(ps.drop_last()) + seq![Out::Comma] + point_member_outs(ps.last())
    }
}

/// The first `n` members of a collection, each with its own header.
pub open spec fn members_outs<T>(ms: Seq<Shape<T>>, n: int) -> Seq<Out<T>>
    decreases ms, n,
{
    if n <= 0 || n > ms.len() {
        seq![]
    } else if n == 1 {
        wkt_outs(ms[0])
    } else {
        members_outs(ms, n - 1) + seq![Out::Comma] + wkt_outs(ms[n - 1])
    }
}

/// The tokens a geometry is written as. An empty body is `EMPTY`, never `()`.
pub open spec fn wkt_outs<T>(g: Shape<T>) -> Seq<Out<T>>
    decreases g, 0int,
{
    match g {
        Shape::Point(None) => header(g) + seq![Out::Word("EMPTY"@)],
        Shape::Point(Some(c)) => header(g) + wrap(coord_outs(c)),
        Shape::LineString(cs) => if cs.len() == 0 {
            header(g) + seq![Out::Word("EMPTY"@)]
        } else {
            header(g) + wrap(coords_outs(cs))
        },
        Shape::Polygon(rs) => if rs.len() == 0 {
            header(g) + seq![Out::Word("EMPTY"@)]
        } else {
            header(g) + wrap(rings_outs(rs))
        },
        Shape::MultiPoint(ps) => if ps.len() == 0 {
            header(g) + seq![Out::Word("EMPTY"@)]
        } else {
            header(g) + wrap(points_outs(ps))
        },
        Shape::MultiLineString(rs) => if rs.len() == 0 {
            header(g) + seq![Out::Word("EMPTY"@)]
        } else {
            header(g) + wrap(rings_outs(rs))
        },
        Shape::MultiPolygon(qs) => if qs.len() == 0 {
            header(g) + seq![Out::Word("EMPTY"@)]
        } else {
            header(g) + wrap(polygons_outs(qs))
        },
        Shape::GeometryCollection(ms) => if ms.len() == 0 {
            header(g) + seq![Out::Word("EMPTY"@)]
        } else {
            header(g) + wrap(members_outs(ms, ms.len() as int))
        },
    }
}


/// A piece of output text.
pub enum Piece {
    Word(&'static str),
    Numeral(String),
    Open,
    Close,
    Comma,
}

pub open spec fn lexeme_of(p: Piece) -> Lexeme {
    match p {
        Piece::Word(w) => Lexeme::Word(w@),
        Piece::Numeral(n) => Lexeme::Numeral(n@),
        Piece::Open => Lexeme::ParenOpen,
        Piece::Close => Lexeme::ParenClose,
        Piece::Comma => Lexeme::Comma,
    }
}

pub open spec fn lexemes_of(ps: Seq<Piece>) -> Seq<Lexeme> {
    ps.map_values(|p: Piece| lexeme_of(p))
}

/// `n` is a text that `Display` gives for `v`.
pub open spec fn displays<T: core::fmt::Display>(v: T, n: Seq<char>) -> bool {
    exists|s: String| s@ == n && #[trigger] vstd::string::to_string_from_display_ensures::<T>(&v, s)
}

/// `l` is how `o` is written: words as they are, a number by the text that
/// `Display` gives for it.
pub open spec fn fits<T: core::fmt::Display>(l: Lexeme, o: Out<T>) -> bool {
    match (l, o) {
        (Lexeme::Word(a), Out::Word(b)) => a == b,
        (Lexeme::Numeral(n), Out::Num(v)) => displays(v, n),
        (Lexeme::ParenOpen, Out::Open) => true,
        (Lexeme::ParenClose, Out::Close) => true,
        (Lexeme::Comma, Out::Comma) => true,
        _ => false,
    }
}

/// The lexemes `ls` write the tokens `os`.
pub open spec fn writes<T: core::fmt::Display>(ls: Seq<Lexeme>, os: Seq<Out<T>>) -> bool {
    ls.len() == os.len() && forall|i: int| 0 <= i < os.len() ==> fits(#[trigger] ls[i], os[i])
}

/// `new` is `old` followed by pieces that write `os`.
pub open spec fn extends_by<T: core::fmt::Display>(old: Seq<Piece>, new: Seq<Piece>, os: Seq<Out<T>>) -> bool {
    &&& new.len() == old.len() + os.len()
    &&& forall|i: int| 0 <= i < old.len() ==> new[i] == old[i]
    &&& forall|i: int| 0 <= i < os.len() ==> fits(lexeme_of(#[trigger] new[old.len() + i]), os[i])
}

proof fn lemma_extends_trans<T: core::fmt::Display>(a: Seq<Piece>, b: Seq<Piece>, c: Seq<Piece>, o1: Seq<Out<T>>, o2: Seq<Out<T>>)
    requires
        extends_by(a, b, o1),
        extends_by(b, c, o2),
    ensures
        extends_by(a, c, o1 + o2),
{
    assert forall|i: int| 0 <= i < (o1 + o2).len() implies fits(lexeme_of(#[trigger] c[a.len() + i]), (o1 + o2)[i]) by {
        if i < o1.len() {
            assert(c[a.len() + i] == b[a.len() + i]);
        } else {
            assert(c[a.len() + i] == c[b.len() + (i - o1.len())]);
        }
    }
}

proof fn lemma_extends_nil<T: core::fmt::Display>(a: Seq<Piece>)
    ensures
        extends_by(a, a, Seq::<Out<T>>::empty()),
{
}

fn push_word<T: core::fmt::Display>(out: &mut Vec<Piece>, w: &'static str)
    ensures
        extends_by(old(out)@, final(out)@, seq![Out::<T>::Word(w@)]),
{
    out.push(Piece::Word(w));
}

fn push_piece<T: core::fmt::Display>(out: &mut Vec<Piece>, p: Piece, o: Ghost<Out<T>>)
    requires
        fits(lexeme_of(p), o@),
    ensures
        extends_by(old(out)@, final(out)@, seq![o@]),
{
    out.push(p);
}

fn write_num<T: core::fmt::Display>(out: &mut Vec<Piece>, v: &T)
    ensures
        extends_by(old(out)@, final(out)@, seq![Out::Num(*v)]),
{
    let n = v.to_string();
    assert(displays(*v, n@));
    push_piece::<T>(out, Piece::Numeral(n), Ghost(Out::Num(*v)));
}

fn write_opt<T: core::fmt::Display>(out: &mut Vec<Piece>, v: &Option<T>)
    ensures
        extends_by(old(out)@, final(out)@, opt_outs(*v)),
{
    match v {
        Some(x) => write_num(out, x),
        None => proof { lemma_extends_nil::<T>(out@); },
    }
}

fn write_coord<T: core::fmt::Display>(out: &mut Vec<Piece>, c: &Coord<T>)
    ensures
        extends_by(old(out)@, final(out)@, coord_outs(*c)),
{
    let ghost o0 = out@;
    write_num(out, &c.x);
    let ghost o1 = out@;
    write_num(out, &c.y);
    let ghost o2 = out@;
    write_opt(out, &c.z);
    let ghost o3 = out@;
    write_opt(out, &c.m);
    proof {
        lemma_extends_trans(o0, o1, o2, seq![Out::Num(c.x)], seq![Out::Num(c.y)]);
        lemma_extends_trans(o0, o2, o3, seq![Out::Num(c.x)] + seq![Out::Num(c.y)], opt_outs(c.z));
        lemma_extends_trans(o0, o3, out@, seq![Out::Num(c.x)] + seq![Out::Num(c.y)] + opt_outs(c.z), opt_outs(c.m));
        assert(seq![Out::Num(c.x)] + seq![Out::Num(c.y)] =~= seq![Out::Num(c.x), Out::Num(c.y)]);
    }
}

fn write_coords<T: core::fmt::Display>(out: &mut Vec<Piece>, cs: &Vec<Coord<T>>)
    ensures
        extends_by(old(out)@, final(out)@, coords_outs(cs@)),
{
    let ghost o0 = out@;
    let mut i: usize = 0;
    proof {
        assert(cs@.take(0) =~= seq![]);
        lemma_extends_nil::<T>(o0);
    }
    while i < cs.len()
        invariant
            i <= cs@.len(),
            extends_by(o0, out@, coords_outs(cs@.take(i as int))),
        decreases cs@.len() - i,
    {
        let ghost before = out@;
        let ghost prev = coords_outs(cs@.take(i as int));
        assert(cs@.take(i + 1).drop_last() =~= cs@.take(i as int));
        if i > 0 {
            push_piece::<T>(out, Piece::Comma, Ghost(Out::<T>::Comma));
            let ghost mid = out@;
            write_coord(out, &cs[i]);
            proof {
                lemma_extends_trans(before, mid, out@, seq![Out::<T>::Comma], coord_outs(cs@[i as int]));
                lemma_extends_trans(o0, before, out@, prev, seq![Out::<T>::Comma] + coord_outs(cs@[i as int]));
                assert(prev + (seq![Out::<T>::Comma] + coord_outs(cs@[i as int])) =~= coords_outs(cs@.take(i + 1)));
            }
        } else {
            write_coord(out, &cs[i]);
            proof {
                lemma_extends_trans(o0, before, out@, prev, coord_outs(cs@[i as int]));
                assert(prev + coord_outs(cs@[i as int]) =~= coords_outs(cs@.take(i + 1)));
            }
        }
        i = i + 1;
    }
    proof {
        assert(cs@.take(cs@.len() as int) =~= cs@);
    }
}

/// The characters a piece is written with.
pub open spec fn piece_text(l: Lexeme) -> Seq<char> {
    match l {
        Lexeme::Word(w) => w,
        Lexeme::Numeral(n) => n,
        Lexeme::ParenOpen => seq!['('],
        Lexeme::ParenClose => seq![')'],
        Lexeme::Comma => seq![','],
    }
}

pub open spec fn is_atom(l: Lexeme) -> bool {
    l is Word || l is Numeral
}

/// What separates two neighbouring lexemes: a space between two atoms.
pub open spec fn gap(a: Lexeme, b: Lexeme) -> Seq<char> {
    if is_atom(a) && is_atom(b) {
        seq![' ']
    } else {
        seq![]
    }
}

/// The text of a lexeme sequence.
pub open spec fn render(ls: Seq<Lexeme>) -> Seq<char>
    decreases ls.len(),
{
    if ls.len() == 0 {
        seq![]
    } else if ls.len() == 1 {
        piece_text(ls[0])
    } else {
        piece_text(ls[0]) + gap(ls[0], ls[1]) + render(ls.drop_first())
    }
}

fn is_atom_piece(p: &Piece) -> (r: bool)
    ensures
        r == is_atom(lexeme_of(*p)),
{
    match p {
        Piece::Word(_) | Piece::Numeral(_) => true,
        _ => false,
    }
}

/// Joins the pieces into text.
fn render_pieces(ps: &Vec<Piece>) -> (r: String)
    ensures
        r@ == render(lexemes_of(ps@)),
{
    let ghost ls = lexemes_of(ps@);
    let mut s = String::new();
    let mut i: usize = 0;
    proof {
        assert(ls.skip(0) =~= ls);
        assert(s@ =~= seq![]);
    }
    while i < ps.len()
        invariant
            i <= ps@.len(),
            ls == lexemes_of(ps@),
            render(ls) == s@ + render(ls.skip(i as int)),
        decreases ps@.len() - i,
    {
        proof {
            reveal_strlit("(");
            reveal_strlit(")");
            reveal_strlit(",");
            reveal_strlit(" ");
        }
        let ghost before = s@;
        let ghost rest = ls.skip(i as int);
        assert(rest[0] == lexeme_of(ps@[i as int]));
        match &ps[i] {
            Piece::Word(w) => s.append(*w),
            Piece::Numeral(n) => s.append(n.as_str()),
            Piece::Open => s.append("("),
            Piece::Close => s.append(")"),
            Piece::Comma => s.append(","),
        }
        assert(s@ == before + piece_text(rest[0]));
        assert(rest.drop_first() =~= ls.skip(i + 1));
        if i + 1 < ps.len() {
            assert(rest[1] == lexeme_of(ps@[i + 1]));
            if is_atom_piece(&ps[i]) && is_atom_piece(&ps[i + 1]) {
                s.append(" ");
            }
            assert(s@ =~= before + piece_text(rest[0]) + gap(rest[0], rest[1]));
        } else {
            assert(ls.skip(i + 1) =~= seq![]);
        }
        i = i + 1;
    }
    proof {
        assert(ls.skip(ps@.len() as int) =~= seq![]);
        assert(s@ + seq![] =~= s@);
    }
    s
}


fn write_rings<T: core::fmt::Display>(out: &mut Vec<Piece>, xs: &Vec<LineString<T>>)
    ensures
        extends_by(old(out)@, final(out)@, rings_outs(rings_view(xs@))),
    
{
    let ghost o0 = out@;
    let ghost view = rings_view(xs@);
    let mut i: usize = 0;
    proof {
        assert(view.take(0) =~= seq![]);
        lemma_extends_nil::<T>(o0);
    }
    while i < xs.len()
        invariant
            i <= xs@.len(),
            view == rings_view(xs@),
            view.len() == xs@.len(),
            extends_by(o0, out@, rings_outs(view.take(i as int))),
        decreases xs@.len() - i,
    {
        let ghost before = out@;
        let ghost prev = rings_outs(view.take(i as int));
        assert(view.take(i + 1).drop_last() =~= view.take(i as int));
        assert(view.take(i + 1).last() == view[i as int]);
        if i > 0 {
            push_piece::<T>(out, Piece::Comma, Ghost(Out::<T>::Comma));
            let ghost mid = out@;
            write_ring(out, &xs[i]);
            proof {
                lemma_extends_trans(before, mid, out@, seq![Out::<T>::Comma], ring_outs(view[i as int]));
                lemma_extends_trans(o0, before, out@, prev, seq![Out::<T>::Comma] + ring_outs(view[i as int]));
                assert(prev + (seq![Out::<T>::Comma] + ring_outs(view[i as int])) =~= rings_outs(view.take(i + 1)));
            }
        } else {
            write_ring(out, &xs[i]);
            proof {
                lemma_extends_trans(o0, before, out@, prev, ring_outs(view[i as int]));
                assert(prev + ring_outs(view[i as int]) =~= rings_outs(view.take(i + 1)));
            }
        }
        i = i + 1;
    }
    proof {
        assert(view.take(xs@.len() as int) =~= view);
    }
}

fn write_polygon_bodies<T: core::fmt::Display>(out: &mut Vec<Piece>, xs: &Vec<Polygon<T>>)
    ensures
        extends_by(old(out)@, final(out)@, polygons_outs(polygons_view(xs@))),
    
{
    let ghost o0 = out@;
    let ghost view = polygons_view(xs@);
    let mut i: usize = 0;
    proof {
        assert(view.take(0) =~= seq![]);
        lemma_extends_nil::<T>(o0);
    }
    while i < xs.len()
        invariant
            i <= xs@.len(),
            view == polygons_view(xs@),
            view.len() == xs@.len(),
            extends_by(o0, out@, polygons_outs(view.take(i as int))),
        decreases xs@.len() - i,
    {
        let ghost before = out@;
        let ghost prev = polygons_outs(view.take(i as int));
        assert(view.take(i + 1).drop_last() =~= view.take(i as int));
        assert(view.take(i + 1).last() == view[i as int]);
        if i > 0 {
            push_piece::<T>(out, Piece::Comma, Ghost(Out::<T>::Comma));
            let ghost mid = out@;
            write_polygon_body(out, &xs[i]);
            proof {
                lemma_extends_trans(before, mid, out@, seq![Out::<T>::Comma], polygon_body_outs(view[i as int]));
                lemma_extends_trans(o0, before, out@, prev, seq![Out::<T>::Comma] + polygon_body_outs(view[i as int]));
                assert(prev + (seq![Out::<T>::Comma] + polygon_body_outs(view[i as int])) =~= polygons_outs(view.take(i + 1)));
            }
        } else {
            write_polygon_body(out, &xs[i]);
            proof {
                lemma_extends_trans(o0, before, out@, prev, polygon_body_outs(view[i as int]));
                assert(prev + polygon_body_outs(view[i as int]) =~= polygons_outs(view.take(i + 1)));
            }
        }
        i = i + 1;
    }
    proof {
        assert(view.take(xs@.len() as int) =~= view);
    }
}

fn write_point_members<T: core::fmt::Display>(out: &mut Vec<Piece>, xs: &Vec<Point<T>>)
    ensures
        extends_by(old(out)@, final(out)@, points_outs(points_view(xs@))),
    
{
    let ghost o0 = out@;
    let ghost view = points_view(xs@);
    let mut i: usize = 0;
    proof {
        assert(view.take(0) =~= seq![]);
        lemma_extends_nil::<T>(o0);
    }
    while i < xs.len()
        invariant
            i <= xs@.len(),
            view == points_view(xs@),
            view.len() == xs@.len(),
            extends_by(o0, out@, points_outs(view.take(i as int))),
        decreases xs@.len() - i,
    {
        let ghost before = out@;
        let ghost prev = points_outs(view.take(i as int));
        assert(view.take(i + 1).drop_last() =~= view.take(i as int));
        assert(view.take(i + 1).last() == view[i as int]);
        if i > 0 {
            push_piece::<T>(out, Piece::Comma, Ghost(Out::<T>::Comma));
            let ghost mid = out@;
            write_point_member(out, &xs[i]);
            proof {
                lemma_extends_trans(before, mid, out@, seq![Out::<T>::Comma], point_member_outs(view[i as int]));
                lemma_extends_trans(o0, before, out@, prev, seq![Out::<T>::Comma] + point_member_outs(view[i as int]));
                assert(prev + (seq![Out::<T>::Comma] + point_member_outs(view[i as int])) =~= points_outs(view.take(i + 1)));
            }
        } else {
            write_point_member(out, &xs[i]);
            proof {
                lemma_extends_trans(o0, before, out@, prev, point_member_outs(view[i as int]));
                assert(prev + point_member_outs(view[i as int]) =~= points_outs(view.take(i + 1)));
            }
        }
        i = i + 1;
    }
    proof {
        assert(view.take(xs@.len() as int) =~= view);
    }
}

fn write_ring<T: core::fmt::Display>(out: &mut Vec<Piece>, l: &LineString<T>)
    ensures
        extends_by(old(out)@, final(out)@, ring_outs(l.0@)),
{
    if l.0.len() == 0 {
        push_word::<T>(out, "EMPTY");
    } else {
        write_wrapped_coords(out, &l.0);
    }
}

fn write_wrapped_coords<T: core::fmt::Display>(out: &mut Vec<Piece>, cs: &Vec<Coord<T>>)
    ensures
        extends_by(old(out)@, final(out)@, wrap(coords_outs(cs@))),
{
    let ghost o0 = out@;
    push_piece::<T>(out, Piece::Open, Ghost(Out::<T>::Open));
    let ghost o1 = out@;
    write_coords(out, cs);
    let ghost o2 = out@;
    push_piece::<T>(out, Piece::Close, Ghost(Out::<T>::Close));
    proof {
        lemma_extends_trans(o0, o1, o2, seq![Out::<T>::Open], coords_outs(cs@));
        lemma_extends_trans(o0, o2, out@, seq![Out::<T>::Open] + coords_outs(cs@), seq![Out::<T>::Close]);
    }
}

fn write_polygon_body<T: core::fmt::Display>(out: &mut Vec<Piece>, p: &Polygon<T>)
    ensures
        extends_by(old(out)@, final(out)@, polygon_body_outs(polygon_shape(*p))),
{
    if p.0.len() == 0 {
        push_word::<T>(out, "EMPTY");
    } else {
        let ghost o0 = out@;
        push_piece::<T>(out, Piece::Open, Ghost(Out::<T>::Open));
        let ghost o1 = out@;
        write_rings(out, &p.0);
        let ghost o2 = out@;
        push_piece::<T>(out, Piece::Close, Ghost(Out::<T>::Close));
        proof {
            lemma_extends_trans(o0, o1, o2, seq![Out::<T>::Open], rings_outs(polygon_shape(*p)));
            lemma_extends_trans(o0, o2, out@, seq![Out::<T>::Open] + rings_outs(polygon_shape(*p)), seq![Out::<T>::Close]);
        }
    }
}

fn write_point_member<T: core::fmt::Display>(out: &mut Vec<Piece>, p: &Point<T>)
    ensures
        extends_by(old(out)@, final(out)@, point_member_outs(p.0)),
{
    match &p.0 {
        Some(c) => {
            let ghost o0 = out@;
            push_piece::<T>(out, Piece::Open, Ghost(Out::<T>::Open));
            let ghost o1 = out@;
            write_coord(out, c);
            let ghost o2 = out@;
            push_piece::<T>(out, Piece::Close, Ghost(Out::<T>::Close));
            proof {
                lemma_extends_trans(o0, o1, o2, seq![Out::<T>::Open], coord_outs(*c));
                lemma_extends_trans(o0, o2, out@, seq![Out::<T>::Open] + coord_outs(*c), seq![Out::<T>::Close]);
            }
        },
        None => push_word::<T>(out, "EMPTY"),
    }
}


fn coord_dim_exec<T>(c: &Coord<T>) -> (r: Dimension)
    ensures
        r == coord_dim(*c),
{
    match (&c.z, &c.m) {
        (None, None) => Dimension::XY,
        (Some(_), None) => Dimension::XYZ,
        (None, Some(_)) => Dimension::XYM,
        (Some(_), Some(_)) => Dimension::XYZM,
    }
}

fn rings_dim_exec<T>(v: &Vec<LineString<T>>) -> (r: Option<Dimension>)
    ensures
        r == rings_dim(rings_view(v@), 0),
{
    let ghost rs = rings_view(v@);
    let mut i: usize = 0;
    while i < v.len()
        invariant
            i <= v@.len(),
            rs == rings_view(v@),
            rs.len() == v@.len(),
            rings_dim(rs, 0) == rings_dim(rs, i as int),
        decreases v@.len() - i,
    {
        if v[i].0.len() > 0 {
            assert(rs[i as int] == v@[i as int].0@);
            return Some(coord_dim_exec(&v[i].0[0]));
        }
        i = i + 1;
    }
    None
}

fn points_dim_exec<T>(v: &Vec<Point<T>>) -> (r: Option<Dimension>)
    ensures
        r == points_dim(points_view(v@), 0),
{
    let ghost ps = points_view(v@);
    let mut i: usize = 0;
    while i < v.len()
        invariant
            i <= v@.len(),
            ps == points_view(v@),
            ps.len() == v@.len(),
            points_dim(ps, 0) == points_dim(ps, i as int),
        decreases v@.len() - i,
    {
        assert(ps[i as int] == v@[i as int].0);
        match &v[i].0 {
            Some(c) => {
                return Some(coord_dim_exec(c));
            },
            None => {},
        }
        i = i + 1;
    }
    None
}

fn polygons_dim_exec<T>(v: &Vec<Polygon<T>>) -> (r: Option<Dimension>)
    ensures
        r == polygons_dim(polygons_view(v@), 0),
{
    let ghost qs = polygons_view(v@);
    let mut i: usize = 0;
    while i < v.len()
        invariant
            i <= v@.len(),
            qs == polygons_view(v@),
            qs.len() == v@.len(),
            polygons_dim(qs, 0) == polygons_dim(qs, i as int),
        decreases v@.len() - i,
    {
        assert(qs[i as int] == rings_view(v@[i as int].0@));
        let d = rings_dim_exec(&v[i].0);
        if d.is_some() {
            return d;
        }
        i = i + 1;
    }
    None
}

fn or_xy_exec(d: Option<Dimension>) -> (r: Dimension)
    ensures
        r == or_xy(d),
{
    match d {
        Some(d) => d,
        None => Dimension::XY,
    }
}

/// The dimension the geometry is written with; see [`dim_of`].
fn dim_exec<T>(g: &Wkt<T>) -> (r: Dimension)
    ensures
        r == dim_of(shape_of(*g)),
    decreases g, 1nat,
{
    match g {
        Wkt::Point(p) => match &p.0 {
            Some(c) => coord_dim_exec(c),
            None => Dimension::XYZ,
        },
        Wkt::LineString(l) => if l.0.len() > 0 {
            coord_dim_exec(&l.0[0])
        } else {
            Dimension::XY
        },
        Wkt::Polygon(p) => or_xy_exec(rings_dim_exec(&p.0)),
        Wkt::MultiPoint(m) => or_xy_exec(points_dim_exec(&m.0)),
        Wkt::MultiLineString(m) => or_xy_exec(rings_dim_exec(&m.0)),
        Wkt::MultiPolygon(m) => or_xy_exec(polygons_dim_exec(&m.0)),
        Wkt::GeometryCollection(c) => collection_dim(c),
    }
}

fn collection_dim<T>(c: &GeometryCollection<T>) -> (r: Dimension)
    ensures
        r == dim_of(shape_of(Wkt::GeometryCollection(*c))),
    decreases c, 0nat,
{
    if c.0.len() > 0 {
        assert(shape_of(Wkt::GeometryCollection(*c))->GeometryCollection_0[0] == shape_of(c.0@[0]));
        dim_exec(&c.0[0])
    } else {
        Dimension::XY
    }
}

fn write_header<T: core::fmt::Display>(out: &mut Vec<Piece>, kw: &'static str, d: Dimension)
    ensures
        extends_by(old(out)@, final(out)@, seq![Out::<T>::Word(kw@)] + marker_outs::<T>(d)),
{
    let ghost o0 = out@;
    push_word::<T>(out, kw);
    let ghost o1 = out@;
    match d {
        Dimension::XY => proof { lemma_extends_nil::<T>(out@); },
        Dimension::XYZ => push_word::<T>(out, "Z"),
        Dimension::XYM => push_word::<T>(out, "M"),
        Dimension::XYZM => push_word::<T>(out, "ZM"),
    }
    proof {
        lemma_extends_trans(o0, o1, out@, seq![Out::<T>::Word(kw@)], marker_outs::<T>(d));
    }
}

/// Appends the tokens of the geometry.
fn write_point<T: core::fmt::Display>(out: &mut Vec<Piece>, x: &Point<T>)
    ensures
        extends_by(old(out)@, final(out)@, wkt_outs(Shape::Point(x.0))),
    
{
    let ghost o0 = out@;
    let ghost sg = Shape::Point(x.0);
    let d = match &x.0 {
        Some(c) => coord_dim_exec(c),
        None => Dimension::XYZ,
    };
    write_header::<T>(out, "POINT", d);
    let ghost o1 = out@;
    assert(header(sg) == seq![Out::<T>::Word("POINT"@)] + marker_outs::<T>(d));
    if x.0.is_none() {
        push_word::<T>(out, "EMPTY");
        proof {
            lemma_extends_trans(o0, o1, out@, header(sg), seq![Out::<T>::Word("EMPTY"@)]);
        }
        return;
    }
    let ghost inside = coord_outs(x.0->0);
    push_piece::<T>(out, Piece::Open, Ghost(Out::<T>::Open));
    let ghost o2 = out@;
    match &x.0 {
        Some(c) => write_coord(out, c),
        None => {},
    }
    let ghost o3 = out@;
    push_piece::<T>(out, Piece::Close, Ghost(Out::<T>::Close));
    proof {
        lemma_extends_trans(o1, o2, o3, seq![Out::<T>::Open], inside);
        lemma_extends_trans(o1, o3, out@, seq![Out::<T>::Open] + inside, seq![Out::<T>::Close]);
        lemma_extends_trans(o0, o1, out@, header(sg), wrap(inside));
    }
}

/// Appends the tokens of the geometry.
fn write_line_string<T: core::fmt::Display>(out: &mut Vec<Piece>, x: &LineString<T>)
    ensures
        extends_by(old(out)@, final(out)@, wkt_outs(Shape::LineString(x.0@))),
    
{
    let ghost o0 = out@;
    let ghost sg = Shape::LineString(x.0@);
    let d = if x.0.len() > 0 { coord_dim_exec(&x.0[0]) } else { Dimension::XY };
    write_header::<T>(out, "LINESTRING", d);
    let ghost o1 = out@;
    assert(header(sg) == seq![Out::<T>::Word("LINESTRING"@)] + marker_outs::<T>(d));
    if x.0.len() == 0 {
        push_word::<T>(out, "EMPTY");
        proof {
            lemma_extends_trans(o0, o1, out@, header(sg), seq![Out::<T>::Word("EMPTY"@)]);
        }
        return;
    }
    let ghost inside = coords_outs(x.0@);
    push_piece::<T>(out, Piece::Open, Ghost(Out::<T>::Open));
    let ghost o2 = out@;
    write_coords(out, &x.0);
    let ghost o3 = out@;
    push_piece::<T>(out, Piece::Close, Ghost(Out::<T>::Close));
    proof {
        lemma_extends_trans(o1, o2, o3, seq![Out::<T>::Open], inside);
        lemma_extends_trans(o1, o3, out@, seq![Out::<T>::Open] + inside, seq![Out::<T>::Close]);
        lemma_extends_trans(o0, o1, out@, header(sg), wrap(inside));
    }
}

/// Appends the tokens of the geometry.
fn write_polygon<T: core::fmt::Display>(out: &mut Vec<Piece>, x: &Polygon<T>)
    ensures
        extends_by(old(out)@, final(out)@, wkt_outs(Shape::Polygon(polygon_shape(*x)))),
    
{
    let ghost o0 = out@;
    let ghost sg = Shape::Polygon(polygon_shape(*x));
    let d = or_xy_exec(rings_dim_exec(&x.0));
    write_header::<T>(out, "POLYGON", d);
    let ghost o1 = out@;
    assert(header(sg) == seq![Out::<T>::Word("POLYGON"@)] + marker_outs::<T>(d));
    if x.0.len() == 0 {
        push_word::<T>(out, "EMPTY");
        proof {
            lemma_extends_trans(o0, o1, out@, header(sg), seq![Out::<T>::Word("EMPTY"@)]);
        }
        return;
    }
    let ghost inside = rings_outs(polygon_shape(*x));
    push_piece::<T>(out, Piece::Open, Ghost(Out::<T>::Open));
    let ghost o2 = out@;
    write_rings(out, &x.0);
    let ghost o3 = out@;
    push_piece::<T>(out, Piece::Close, Ghost(Out::<T>::Close));
    proof {
        lemma_extends_trans(o1, o2, o3, seq![Out::<T>::Open], inside);
        lemma_extends_trans(o1, o3, out@, seq![Out::<T>::Open] + inside, seq![Out::<T>::Close]);
        lemma_extends_trans(o0, o1, out@, header(sg), wrap(inside));
    }
}

/// Appends the tokens of the geometry.
fn write_multi_point<T: core::fmt::Display>(out: &mut Vec<Piece>, x: &MultiPoint<T>)
    ensures
        extends_by(old(out)@, final(out)@, wkt_outs(Shape::MultiPoint(points_view(x.0@)))),
    
{
    let ghost o0 = out@;
    let ghost sg = Shape::MultiPoint(points_view(x.0@));
    let d = or_xy_exec(points_dim_exec(&x.0));
    write_header::<T>(out, "MULTIPOINT", d);
    let ghost o1 = out@;
    assert(header(sg) == seq![Out::<T>::Word("MULTIPOINT"@)] + marker_outs::<T>(d));
    if x.0.len() == 0 {
        push_word::<T>(out, "EMPTY");
        proof {
            lemma_extends_trans(o0, o1, out@, header(sg), seq![Out::<T>::Word("EMPTY"@)]);
        }
        return;
    }
    let ghost inside = points_outs(points_view(x.0@));
    push_piece::<T>(out, Piece::Open, Ghost(Out::<T>::Open));
    let ghost o2 = out@;
    write_point_members(out, &x.0);
    let ghost o3 = out@;
    push_piece::<T>(out, Piece::Close, Ghost(Out::<T>::Close));
    proof {
        lemma_extends_trans(o1, o2, o3, seq![Out::<T>::Open], inside);
        lemma_extends_trans(o1, o3, out@, seq![Out::<T>::Open] + inside, seq![Out::<T>::Close]);
        lemma_extends_trans(o0, o1, out@, header(sg), wrap(inside));
    }
}

/// Appends the tokens of the geometry.
fn write_multi_line_string<T: core::fmt::Display>(out: &mut Vec<Piece>, x: &MultiLineString<T>)
    ensures
        extends_by(old(out)@, final(out)@, wkt_outs(Shape::MultiLineString(rings_view(x.0@)))),
    
{
    let ghost o0 = out@;
    let ghost sg = Shape::MultiLineString(rings_view(x.0@));
    let d = or_xy_exec(rings_dim_exec(&x.0));
    write_header::<T>(out, "MULTILINESTRING", d);
    let ghost o1 = out@;
    assert(header(sg) == seq![Out::<T>::Word("MULTILINESTRING"@)] + marker_outs::<T>(d));
    if x.0.len() == 0 {
        push_word::<T>(out, "EMPTY");
        proof {
            lemma_extends_trans(o0, o1, out@, header(sg), seq![Out::<T>::Word("EMPTY"@)]);
        }
        return;
    }
    let ghost inside = rings_outs(rings_view(x.0@));
    push_piece::<T>(out, Piece::Open, Ghost(Out::<T>::Open));
    let ghost o2 = out@;
    write_rings(out, &x.0);
    let ghost o3 = out@;
    push_piece::<T>(out, Piece::Close, Ghost(Out::<T>::Close));
    proof {
        lemma_extends_trans(o1, o2, o3, seq![Out::<T>::Open], inside);
        lemma_extends_trans(o1, o3, out@, seq![Out::<T>::Open] + inside, seq![Out::<T>::Close]);
        lemma_extends_trans(o0, o1, out@, header(sg), wrap(inside));
    }
}

/// Appends the tokens of the geometry.
fn write_multi_polygon<T: core::fmt::Display>(out: &mut Vec<Piece>, x: &MultiPolygon<T>)
    ensures
        extends_by(old(out)@, final(out)@, wkt_outs(Shape::MultiPolygon(polygons_view(x.0@)))),
    
{
    let ghost o0 = out@;
    let ghost sg = Shape::MultiPolygon(polygons_view(x.0@));
    let d = or_xy_exec(polygons_dim_exec(&x.0));
    write_header::<T>(out, "MULTIPOLYGON", d);
    let ghost o1 = out@;
    assert(header(sg) == seq![Out::<T>::Word("MULTIPOLYGON"@)] + marker_outs::<T>(d));
    if x.0.len() == 0 {
        push_word::<T>(out, "EMPTY");
        proof {
            lemma_extends_trans(o0, o1, out@, header(sg), seq![Out::<T>::Word("EMPTY"@)]);
        }
        return;
    }
    let ghost inside = polygons_outs(polygons_view(x.0@));
    push_piece::<T>(out, Piece::Open, Ghost(Out::<T>::Open));
    let ghost o2 = out@;
    write_polygon_bodies(out, &x.0);
    let ghost o3 = out@;
    push_piece::<T>(out, Piece::Close, Ghost(Out::<T>::Close));
    proof {
        lemma_extends_trans(o1, o2, o3, seq![Out::<T>::Open], inside);
        lemma_extends_trans(o1, o3, out@, seq![Out::<T>::Open] + inside, seq![Out::<T>::Close]);
        lemma_extends_trans(o0, o1, out@, header(sg), wrap(inside));
    }
}

/// Appends the tokens of the geometry.
fn write_collection<T: core::fmt::Display>(out: &mut Vec<Piece>, x: &GeometryCollection<T>)
    ensures
        extends_by(old(out)@, final(out)@, wkt_outs(shape_of(Wkt::GeometryCollection(*x)))),
    decreases x, 1nat,
{
    let ghost o0 = out@;
    let ghost sg = shape_of(Wkt::GeometryCollection(*x));
    let d = collection_dim(x);
    write_header::<T>(out, "GEOMETRYCOLLECTION", d);
    let ghost o1 = out@;
    assert(header(sg) == seq![Out::<T>::Word("GEOMETRYCOLLECTION"@)] + marker_outs::<T>(d));
    if x.0.len() == 0 {
        push_word::<T>(out, "EMPTY");
        proof {
            lemma_extends_trans(o0, o1, out@, header(sg), seq![Out::<T>::Word("EMPTY"@)]);
        }
        return;
    }
    let ghost inside = members_outs(shape_of(Wkt::GeometryCollection(*x))->GeometryCollection_0, x.0@.len() as int);
    push_piece::<T>(out, Piece::Open, Ghost(Out::<T>::Open));
    let ghost o2 = out@;
    write_members(out, x);
    let ghost o3 = out@;
    push_piece::<T>(out, Piece::Close, Ghost(Out::<T>::Close));
    proof {
        lemma_extends_trans(o1, o2, o3, seq![Out::<T>::Open], inside);
        lemma_extends_trans(o1, o3, out@, seq![Out::<T>::Open] + inside, seq![Out::<T>::Close]);
        lemma_extends_trans(o0, o1, out@, header(sg), wrap(inside));
    }
}

fn write_members<T: core::fmt::Display>(out: &mut Vec<Piece>, c: &GeometryCollection<T>)
    ensures
        extends_by(old(out)@, final(out)@, members_outs(shape_of(Wkt::GeometryCollection(*c))->GeometryCollection_0, c.0@.len() as int)),
    decreases c, 0nat,
{
    let ghost o2 = out@;
    let ghost ms = shape_of(Wkt::GeometryCollection(*c))->GeometryCollection_0;
    let mut i: usize = 0;
    proof {
        lemma_extends_nil::<T>(o2);
    }
    while i < c.0.len()
        invariant
            i <= c.0@.len(),
            ms == shape_of(Wkt::GeometryCollection(*c))->GeometryCollection_0,
            ms.len() == c.0@.len(),
            extends_by(o2, out@, members_outs(ms, i as int)),
        decreases c.0@.len() - i,
    {
        let ghost before = out@;
        let ghost prev = members_outs(ms, i as int);
        assert(ms[i as int] == shape_of(c.0@[i as int]));
        if i > 0 {
            push_piece::<T>(out, Piece::Comma, Ghost(Out::<T>::Comma));
            let ghost mid = out@;
            write_geometry(out, &c.0[i]);
            proof {
                lemma_extends_trans(before, mid, out@, seq![Out::<T>::Comma], wkt_outs(ms[i as int]));
                lemma_extends_trans(o2, before, out@, prev, seq![Out::<T>::Comma] + wkt_outs(ms[i as int]));
                assert(prev + (seq![Out::<T>::Comma] + wkt_outs(ms[i as int])) =~= members_outs(ms, i + 1));
            }
        } else {
            write_geometry(out, &c.0[i]);
            proof {
                lemma_extends_trans(o2, before, out@, prev, wkt_outs(ms[i as int]));
                assert(prev + wkt_outs(ms[i as int]) =~= members_outs(ms, i + 1));
            }
        }
        i = i + 1;
    }
}

/// Appends the tokens of `g`.
fn write_geometry<T: core::fmt::Display>(out: &mut Vec<Piece>, g: &Wkt<T>)
    ensures
        extends_by(old(out)@, final(out)@, wkt_outs(shape_of(*g))),
    decreases g, 2nat,
{
    match g {
        Wkt::Point(x) => write_point(out, x),
        Wkt::LineString(x) => write_line_string(out, x),
        Wkt::Polygon(x) => write_polygon(out, x),
        Wkt::MultiPoint(x) => write_multi_point(out, x),
        Wkt::MultiLineString(x) => write_multi_line_string(out, x),
        Wkt::MultiPolygon(x) => write_multi_polygon(out, x),
        Wkt::GeometryCollection(x) => write_collection(out, x),
    }
}

proof fn lemma_written<T: core::fmt::Display>(ps: Seq<Piece>, os: Seq<Out<T>>)
    requires
        extends_by(Seq::<Piece>::empty(), ps, os),
    ensures
        writes(lexemes_of(ps), os),
{
    assert forall|i: int| 0 <= i < os.len() implies fits(#[trigger] lexemes_of(ps)[i], os[i]) by {
        assert(ps[0 + i] == ps[i]);
    }
}

/// `text` writes the tokens `os`: it is the rendering of lexemes that write them.
pub open spec fn is_text_of<T: core::fmt::Display>(text: Seq<char>, os: Seq<Out<T>>) -> bool {
    exists|ls: Seq<Lexeme>| writes(ls, os) && text == render(ls)
}

impl<T: core::fmt::Display> Point<T> {
    /// The WKT text of the point, numbers in their `Display` form.
    pub fn wkt_string(&self) -> (r: String)
        ensures
            is_text_of(r@, wkt_outs(Shape::Point(self.0))),
    {
        let mut pieces: Vec<Piece> = Vec::new();
        write_point(&mut pieces, self);
        proof {
            lemma_written(pieces@, wkt_outs(Shape::Point(self.0)));
        }
        render_pieces(&pieces)
    }
}

impl<T: core::fmt::Display> LineString<T> {
    /// The WKT text of the line string, numbers in their `Display` form.
    pub fn wkt_string(&self) -> (r: String)
        ensures
            is_text_of(r@, wkt_outs(Shape::LineString(self.0@))),
    {
        let mut pieces: Vec<Piece> = Vec::new();
        write_line_string(&mut pieces, self);
        proof {
            lemma_written(pieces@, wkt_outs(Shape::LineString(self.0@)));
        }
        render_pieces(&pieces)
    }
}

impl<T: core::fmt::Display> Polygon<T> {
    /// The WKT text of the polygon, numbers in their `Display` form.
    pub fn wkt_string(&self) -> (r: String)
        ensures
            is_text_of(r@, wkt_outs(Shape::Polygon(polygon_shape(*self)))),
    {
        let mut pieces: Vec<Piece> = Vec::new();
        write_polygon(&mut pieces, self);
        proof {
            lemma_written(pieces@, wkt_outs(Shape::Polygon(polygon_shape(*self))));
        }
        render_pieces(&pieces)
    }
}

impl<T: core::fmt::Display> MultiPoint<T> {
    /// The WKT text of the multi point, numbers in their `Display` form.
    pub fn wkt_string(&self) -> (r: String)
        ensures
            is_text_of(r@, wkt_outs(Shape::MultiPoint(points_view(self.0@)))),
    {
        let mut pieces: Vec<Piece> = Vec::new();
        write_multi_point(&mut pieces, self);
        proof {
            lemma_written(pieces@, wkt_outs(Shape::MultiPoint(points_view(self.0@))));
        }
        render_pieces(&pieces)
    }
}

impl<T: core::fmt::Display> MultiLineString<T> {
    /// The WKT text of the multi line string, numbers in their `Display` form.
    pub fn wkt_string(&self) -> (r: String)
        ensures
            is_text_of(r@, wkt_outs(Shape::MultiLineString(rings_view(self.0@)))),
    {
        let mut pieces: Vec<Piece> = Vec::new();
        write_multi_line_string(&mut pieces, self);
        proof {
            lemma_written(pieces@, wkt_outs(Shape::MultiLineString(rings_view(self.0@))));
        }
        render_pieces(&pieces)
    }
}

impl<T: core::fmt::Display> MultiPolygon<T> {
    /// The WKT text of the multi polygon, numbers in their `Display` form.
    pub fn wkt_string(&self) -> (r: String)
        ensures
            is_text_of(r@, wkt_outs(Shape::MultiPolygon(polygons_view(self.0@)))),
    {
        let mut pieces: Vec<Piece> = Vec::new();
        write_multi_polygon(&mut pieces, self);
        proof {
            lemma_written(pieces@, wkt_outs(Shape::MultiPolygon(polygons_view(self.0@))));
        }
        render_pieces(&pieces)
    }
}

impl<T: core::fmt::Display> GeometryCollection<T> {
    /// The WKT text of the geometry collection, numbers in their `Display` form.
    pub fn wkt_string(&self) -> (r: String)
        ensures
            is_text_of(r@, wkt_outs(shape_of(Wkt::GeometryCollection(*self)))),
    {
        let mut pieces: Vec<Piece> = Vec::new();
        write_collection(&mut pieces, self);
        proof {
            lemma_written(pieces@, wkt_outs(shape_of(Wkt::GeometryCollection(*self))));
        }
        render_pieces(&pieces)
    }
}

impl<T: core::fmt::Display> Wkt<T> {
    /// The WKT text of the geometry, numbers in their `Display` form.
    pub fn wkt_string(&self) -> (r: String)
        ensures
            is_text_of(r@, wkt_outs(shape_of(*self))),
    {
        let mut pieces: Vec<Piece> = Vec::new();
        write_geometry(&mut pieces, self);
        proof {
            lemma_written(pieces@, wkt_outs(shape_of(*self)));
        }
        render_pieces(&pieces)
    }
}

impl<T> Wkt<T> {
    /// `XYZ` where the geometry holds a coordinate or is a point, else `XY`.
    pub fn dim(&self) -> (r: Dimension)
        ensures
            r == dim_of(shape_of(*self)),
    {
        dim_exec(self)
    }
}

pub open spec fn kind_keyword(k: crate::parser::Kind) -> Seq<char> {
    match k {
        crate::parser::Kind::Point => "POINT"@,
        crate::parser::Kind::LineString => "LINESTRING"@,
        crate::parser::Kind::Polygon => "POLYGON"@,
        crate::parser::Kind::MultiPoint => "MULTIPOINT"@,
        crate::parser::Kind::MultiLineString => "MULTILINESTRING"@,
        crate::parser::Kind::MultiPolygon => "MULTIPOLYGON"@,
        crate::parser::Kind::GeometryCollection => "GEOMETRYCOLLECTION"@,
    }
}

pub open spec fn marker_lexemes(d: Dimension) -> Seq<Lexeme> {
    match d {
        Dimension::XY => seq![],
        Dimension::XYZ => seq![Lexeme::Word("Z"@)],
        Dimension::XYM => seq![Lexeme::Word("M"@)],
        Dimension::XYZM => seq![Lexeme::Word("ZM"@)],
    }
}

/// The lexemes of an empty geometry of kind `k` and dimension `d`.
pub open spec fn empty_lexemes(k: crate::parser::Kind, d: Dimension) -> Seq<Lexeme> {
    seq![Lexeme::Word(kind_keyword(k))] + marker_lexemes(d) + seq![Lexeme::Word("EMPTY"@)]
}

/// The text of an empty geometry of kind `k` whose dimension is `d`, such as
/// `LINESTRING Z EMPTY`: the tree holds no dimension for an empty geometry,
/// a caller that knows it writes it with this.
pub fn empty_wkt_string(k: crate::parser::Kind, d: Dimension) -> (r: String)
    ensures
        r@ == render(empty_lexemes(k, d)),
{
    let kw = match k {
        crate::parser::Kind::Point => "POINT",
        crate::parser::Kind::LineString => "LINESTRING",
        crate::parser::Kind::Polygon => "POLYGON",
        crate::parser::Kind::MultiPoint => "MULTIPOINT",
        crate::parser::Kind::MultiLineString => "MULTILINESTRING",
        crate::parser::Kind::MultiPolygon => "MULTIPOLYGON",
        crate::parser::Kind::GeometryCollection => "GEOMETRYCOLLECTION",
    };
    let mut pieces: Vec<Piece> = Vec::new();
    pieces.push(Piece::Word(kw));
    match d {
        Dimension::XY => {},
        Dimension::XYZ => pieces.push(Piece::Word("Z")),
        Dimension::XYM => pieces.push(Piece::Word("M")),
        Dimension::XYZM => pieces.push(Piece::Word("ZM")),
    }
    pieces.push(Piece::Word("EMPTY"));
    assert(lexemes_of(pieces@) =~= empty_lexemes(k, d));
    render_pieces(&pieces)
}

/// No more than `limit` non-empty collections enclose one another in `g`.
pub open spec fn nests_within<T>(g: Shape<T>, limit: nat) -> bool
    decreases g,
{
    match g {
        Shape::GeometryCollection(ms) => ms.len() == 0 || (limit > 0 && forall|i: int|
            0 <= i < ms.len() ==> nests_within(#[trigger] ms[i], (limit - 1) as nat)),
        _ => true,
    }
}

fn nests_within_exec<T>(g: &Wkt<T>, limit: usize) -> (r: bool)
    ensures
        r == nests_within(shape_of(*g), limit as nat),
    decreases limit,
{
    match g {
        Wkt::GeometryCollection(c) => {
            if c.0.len() == 0 {
                return true;
            }
            if limit == 0 {
                return false;
            }
            let ghost ms = shape_of(*g)->GeometryCollection_0;
            let mut i: usize = 0;
            while i < c.0.len()
                invariant
                    0 < limit,
                    *g == Wkt::GeometryCollection(*c),
                    ms == shape_of(*g)->GeometryCollection_0,
                    ms.len() == c.0@.len(),
                    i <= c.0@.len(),
                    forall|j: int| 0 <= j < i ==> nests_within(#[trigger] ms[j], (limit - 1) as nat),
                decreases c.0@.len() - i,
            {
                assert(ms[i as int] == shape_of(c.0@[i as int]));
                if !nests_within_exec(&c.0[i], limit - 1) {
                    return false;
                }
                i = i + 1;
            }
            true
        },
        _ => true,
    }
}

impl<T: core::fmt::Display> Wkt<T> {
    /// The WKT text of the geometry, where no more than [`crate::parser::MAX_DEPTH`]
    /// non-empty collections enclose one another (what the parser reads
    /// back); `None` for a deeper geometry, which is refused before any
    /// writing starts.
    pub fn try_wkt_string(&self) -> (r: Option<String>)
        ensures
            match r {
                Some(t) => nests_within(shape_of(*self), crate::parser::MAX_DEPTH as nat) && is_text_of(t@, wkt_outs(shape_of(*self))),
                None => !nests_within(shape_of(*self), crate::parser::MAX_DEPTH as nat),
            },
    {
        if nests_within_exec(self, crate::parser::MAX_DEPTH) {
            Some(self.wkt_string())
        } else {
            None
        }
    }
}

} // verus!
