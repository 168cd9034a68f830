//! Parsing what the writer writes gives the geometry back.
//!
//! [`lemma_parse_written`] works on tokens: a token stream that holds exactly
//! the tokens a geometry is written as parses to that geometry. Together with
//! [`crate::laws::lemma_lex_render`], which takes text back to tokens, it
//! makes [`lemma_round_trip`].
use vstd::prelude::*;
use crate::conversion::kind_of;
use crate::laws::{all_space, lemma_lex_render, render_with, separates, well_formed};
use crate::parser::{
    at, body, coord_at, coords_of, from_word, infer_dim, inner, item, items, marker_dim,
    parse_tokens, points_of, polygons_of, rings_of, same_letter, word_is, word_kind, Item, Kind,
    MAX_DEPTH,
};
use crate::tokenizer::{lex, tokenizes, Lexeme, Token, Tokens};
use crate::types::{coord_dim, Coord, Dimension, Shape};
use crate::writer::{
    coord_outs, coords_outs, dim_of, fits, gap, header, marker_outs, opt_outs,
    is_atom, keyword, members_outs, piece_text, point_member_outs, points_outs, polygon_body_outs,
    polygons_outs, render, ring_outs, rings_outs, wkt_outs, wrap, writes, Out,
};

verus! {

proof fn lemma_keywords()
    ensures
        word_kind("POINT"@) == Some::<(Kind, Option<Dimension>)>((Kind::Point, None)),
        word_kind("LINESTRING"@) == Some::<(Kind, Option<Dimension>)>((Kind::LineString, None)),
        word_kind("POLYGON"@) == Some::<(Kind, Option<Dimension>)>((Kind::Polygon, None)),
        word_kind("MULTIPOINT"@) == Some::<(Kind, Option<Dimension>)>((Kind::MultiPoint, None)),
        word_kind("MULTILINESTRING"@) == Some::<(Kind, Option<Dimension>)>((Kind::MultiLineString, None)),
        word_kind("MULTIPOLYGON"@) == Some::<(Kind, Option<Dimension>)>((Kind::MultiPolygon, None)),
        word_kind("GEOMETRYCOLLECTION"@) == Some::<(Kind, Option<Dimension>)>((Kind::GeometryCollection, None)),
        marker_dim("Z"@) == Some(Dimension::XYZ),
        marker_dim("M"@) == Some(Dimension::XYM),
        marker_dim("ZM"@) == Some(Dimension::XYZM),
        marker_dim("EMPTY"@) is None,
        word_is("EMPTY"@, "EMPTY"@),
{
    reveal_strlit("POINT");
    reveal_strlit("LINESTRING");
    reveal_strlit("LINEARRING");
    reveal_strlit("POLYGON");
    reveal_strlit("MULTIPOINT");
    reveal_strlit("MULTILINESTRING");
    reveal_strlit("MULTIPOLYGON");
    reveal_strlit("GEOMETRYCOLLECTION");
    reveal_strlit("Z");
    reveal_strlit("M");
    reveal_strlit("ZM");
    reveal_strlit("EMPTY");
    assert(!same_letter("MULTIPOINT"@[0], "LINESTRING"@[0]));
    assert(!same_letter("MULTIPOINT"@[0], "LINEARRING"@[0]));
    assert(word_is("MULTIPOINT"@, "MULTIPOINT"@));
    assert(word_is("POINT"@, "POINT"@));
    assert(word_is("LINESTRING"@, "LINESTRING"@));
    assert(word_is("POLYGON"@, "POLYGON"@));
    assert(word_is("MULTILINESTRING"@, "MULTILINESTRING"@));
    assert(word_is("MULTIPOLYGON"@, "MULTIPOLYGON"@));
    assert(word_is("GEOMETRYCOLLECTION"@, "GEOMETRYCOLLECTION"@));
    assert(word_is("Z"@, "Z"@));
    assert(word_is("M"@, "M"@));
    assert(word_is("ZM"@, "ZM"@));
    assert(!same_letter("M"@[0], "Z"@[0]));
    assert(word_is("EMPTY"@, "EMPTY"@));
}

/// `t` is the token `o` exactly.
pub open spec fn token_is<T>(t: Token<T>, o: Out<T>) -> bool {
    match (t, o) {
        (Token::Word(w), Out::Word(k)) => w@ == k,
        (Token::Number(v), Out::Num(x)) => v == x,
        (Token::ParenOpen, Out::Open) => true,
        (Token::ParenClose, Out::Close) => true,
        (Token::Comma, Out::Comma) => true,
        _ => false,
    }
}

/// From `pos` on, `ts` holds the tokens `os`.
pub open spec fn spells<T>(ts: Tokens<T>, pos: int, os: Seq<Out<T>>) -> bool {
    &&& 0 <= pos
    &&& pos + os.len() <= ts.toks@.len()
    &&& forall|i: int| 0 <= i < os.len() ==> token_is(#[trigger] ts.toks@[pos + i], os[i])
}

proof fn lemma_spells_split<T>(ts: Tokens<T>, pos: int, a: Seq<Out<T>>, b: Seq<Out<T>>)
    requires
        spells(ts, pos, a + b),
    ensures
        spells(ts, pos, a),
        spells(ts, pos + a.len(), b),
{
    assert forall|i: int| 0 <= i < a.len() implies token_is(#[trigger] ts.toks@[pos + i], a[i]) by {
        assert((a + b)[i] == a[i]);
    }
    assert forall|i: int| 0 <= i < b.len() implies token_is(#[trigger] ts.toks@[pos + a.len() + i], b[i]) by {
        assert((a + b)[a.len() + i] == b[i]);
        assert(ts.toks@[pos + (a.len() + i)] == ts.toks@[pos + a.len() + i]);
    }
}

/// How an item of a list is written.
pub open spec fn item_outs<T>(it: Item, s: Shape<T>) -> Seq<Out<T>> {
    match it {
        Item::Coord => coord_outs(s->Point_0->0),
        Item::Ring => ring_outs(s->LineString_0),
        Item::Polygon => polygon_body_outs(s->Polygon_0),
        Item::Point => point_member_outs(s->Point_0),
        Item::Member => wkt_outs(s),
    }
}

/// The items `ss[k..]`, separated by commas.
pub open spec fn list_outs<T>(it: Item, ss: Seq<Shape<T>>, k: int) -> Seq<Out<T>>
    decreases ss.len() - k,
{
    if k < 0 || k >= ss.len() {
        seq![]
    } else if k == ss.len() - 1 {
        item_outs(it, ss[k])
    } else {
        item_outs(it, ss[k]) + seq![Out::Comma] + list_outs(it, ss, k + 1)
    }
}

proof fn lemma_list_push<T>(it: Item, ss: Seq<Shape<T>>, x: Shape<T>, k: int)
    requires
        0 <= k < ss.len(),
    ensures
        list_outs(it, ss.push(x), k) == list_outs(it, ss, k) + seq![Out::Comma] + item_outs(it, x),
    decreases ss.len() - k,
{
    let s2 = ss.push(x);
    assert(s2[k] == ss[k]);
    if k == ss.len() - 1 {
        assert(s2[k + 1] == x);
        assert(list_outs(it, s2, k + 1) == item_outs(it, x));
    } else {
        lemma_list_push(it, ss, x, k + 1);
        assert(item_outs(it, ss[k]) + seq![Out::<T>::Comma] + (list_outs(it, ss, k + 1) + seq![Out::<T>::Comma] + item_outs(it, x))
            =~= item_outs(it, ss[k]) + seq![Out::<T>::Comma] + list_outs(it, ss, k + 1) + seq![Out::<T>::Comma] + item_outs(it, x));
    }
}

pub open spec fn coord_items<T>(cs: Seq<Coord<T>>) -> Seq<Shape<T>> {
    cs.map_values(|c: Coord<T>| Shape::Point(Some(c)))
}

pub open spec fn ring_items<T>(rs: Seq<Seq<Coord<T>>>) -> Seq<Shape<T>> {
    rs.map_values(|r: Seq<Coord<T>>| Shape::LineString(r))
}

pub open spec fn point_items<T>(ps: Seq<Option<Coord<T>>>) -> Seq<Shape<T>> {
    ps.map_values(|p: Option<Coord<T>>| Shape::Point(p))
}

pub open spec fn polygon_items<T>(qs: Seq<Seq<Seq<Coord<T>>>>) -> Seq<Shape<T>> {
    qs.map_values(|q: Seq<Seq<Coord<T>>>| Shape::Polygon(q))
}

proof fn lemma_coords_list<T>(cs: Seq<Coord<T>>)
    ensures
        coords_outs(cs) == list_outs(Item::Coord, coord_items(cs), 0),
    decreases cs.len(),
{
    if cs.len() > 1 {
        let a = cs.drop_last();
        lemma_coords_list(a);
        assert(coord_items(cs) =~= coord_items(a).push(Shape::Point(Some(cs.last()))));
        lemma_list_push(Item::Coord, coord_items(a), Shape::Point(Some(cs.last())), 0);
    }
}

proof fn lemma_rings_list<T>(rs: Seq<Seq<Coord<T>>>)
    ensures
        rings_outs(rs) == list_outs(Item::Ring, ring_items(rs), 0),
    decreases rs.len(),
{
    if rs.len() > 1 {
        let a = rs.drop_last();
        lemma_rings_list(a);
        assert(ring_items(rs) =~= ring_items(a).push(Shape::LineString(rs.last())));
        lemma_list_push(Item::Ring, ring_items(a), Shape::LineString(rs.last()), 0);
    }
}

proof fn lemma_points_list<T>(ps: Seq<Option<Coord<T>>>)
    ensures
        points_outs(ps) == list_outs(Item::Point, point_items(ps), 0),
    decreases ps.len(),
{
    if ps.len() > 1 {
        let a = ps.drop_last();
        lemma_points_list(a);
        assert(point_items(ps) =~= point_items(a).push(Shape::Point(ps.last())));
        lemma_list_push(Item::Point, point_items(a), Shape::Point(ps.last()), 0);
    }
}

proof fn lemma_polygons_list<T>(qs: Seq<Seq<Seq<Coord<T>>>>)
    ensures
        polygons_outs(qs) == list_outs(Item::Polygon, polygon_items(qs), 0),
    decreases qs.len(),
{
    if qs.len() > 1 {
        let a = qs.drop_last();
        lemma_polygons_list(a);
        assert(polygon_items(qs) =~= polygon_items(a).push(Shape::Polygon(qs.last())));
        lemma_list_push(Item::Polygon, polygon_items(a), Shape::Polygon(qs.last()), 0);
    }
}

proof fn lemma_members_list<T>(ms: Seq<Shape<T>>, n: int)
    requires
        1 <= n <= ms.len(),
    ensures
        members_outs(ms, n) == list_outs(Item::Member, ms.take(n), 0),
    decreases n,
{
    if n > 1 {
        lemma_members_list(ms, n - 1);
        assert(ms.take(n) =~= ms.take(n - 1).push(ms[n - 1]));
        lemma_list_push(Item::Member, ms.take(n - 1), ms[n - 1], 0);
    } else {
        assert(ms.take(1)[0] == ms[0]);
    }
}

/// All coordinates have the dimension `d`.
pub open spec fn coords_in<T>(cs: Seq<Coord<T>>, d: Dimension) -> bool {
    forall|i: int| 0 <= i < cs.len() ==> coord_dim(#[trigger] cs[i]) == d
}

pub open spec fn rings_in<T>(rs: Seq<Seq<Coord<T>>>, d: Dimension) -> bool {
    forall|i: int| 0 <= i < rs.len() ==> coords_in(#[trigger] rs[i], d)
}

/// A geometry that its text reads back into: its coordinates all have the
/// dimension it is written with (in a collection, each member's own), and no
/// more than [`MAX_DEPTH`] non-empty collections enclose one another,
/// counting the `depth` that enclose it already.
pub open spec fn readable<T>(g: Shape<T>, depth: nat) -> bool
    decreases g,
{
    match g {
        Shape::Point(_) => true,
        Shape::LineString(cs) => coords_in(cs, dim_of(g)),
        Shape::Polygon(rs) => rings_in(rs, dim_of(g)),
        Shape::MultiPoint(ps) => forall|i: int|
            0 <= i < ps.len() && (#[trigger] ps[i]) is Some ==> coord_dim(ps[i]->0) == dim_of(g),
        Shape::MultiLineString(rs) => rings_in(rs, dim_of(g)),
        Shape::MultiPolygon(qs) => forall|i: int| 0 <= i < qs.len() ==> rings_in(#[trigger] qs[i], dim_of(g)),
        Shape::GeometryCollection(ms) => ms.len() == 0 || (depth < MAX_DEPTH && forall|i: int|
            0 <= i < ms.len() ==> readable(#[trigger] ms[i], depth + 1)),
    }
}

/// An item that its text reads back into, in a list of dimension `dim`.
pub open spec fn item_ok<T>(it: Item, s: Shape<T>, dim: Dimension) -> bool {
    match it {
        Item::Coord => s matches Shape::Point(Some(c)) && coord_dim(c) == dim,
        Item::Point => s matches Shape::Point(p) && (p is Some ==> coord_dim(p->0) == dim),
        Item::Ring => s is LineString && coords_in(s->LineString_0, dim),
        Item::Polygon => s is Polygon && rings_in(s->Polygon_0, dim),
        Item::Member => false,
    }
}

/// A coordinate of dimension `dim` parses back from its numbers.
proof fn lemma_coord_parse<T>(ts: Tokens<T>, c: Coord<T>, dim: Dimension, pos: int)
    requires
        coord_dim(c) == dim,
        spells(ts, pos, coord_outs(c)),
    ensures
        coord_at(ts, dim, pos) == Ok::<(Coord<T>, nat), &'static str>((c, coord_outs(c).len())),
        coord_outs(c).len() == crate::parser::arity(dim),
{
    let os = coord_outs(c);
    assert(token_is(ts.toks@[pos + 0], os[0]));
    assert(token_is(ts.toks@[pos + 1], os[1]));
    if os.len() > 2 {
        assert(token_is(ts.toks@[pos + 2], os[2]));
    }
    if os.len() > 3 {
        assert(token_is(ts.toks@[pos + 3], os[3]));
    }
}

pub open spec fn rank(it: Item) -> nat {
    match it {
        Item::Polygon => 2,
        Item::Ring => 1,
        _ => 0,
    }
}

proof fn lemma_item_parse<T>(ts: Tokens<T>, it: Item, dim: Dimension, pos: int, depth: nat, s: Shape<T>)
    requires
        item_ok(it, s, dim),
        spells(ts, pos, item_outs(it, s)),
    ensures
        item(ts, it, dim, pos, depth) == Ok::<(Shape<T>, nat), &'static str>((s, item_outs(it, s).len())),
    decreases rank(it), 0nat, 0nat,
{
    lemma_keywords();
    match it {
        Item::Coord => {
            let c = s->Point_0->0;
            lemma_coord_parse(ts, c, dim, pos);
            assert(s == Shape::Point(Some(c)));
        },
        Item::Point => {
            let p = s->Point_0;
            if p is Some {
                let c = p->0;
                let os = coord_outs(c);
                lemma_spells_split(ts, pos, seq![Out::<T>::Open] + os, seq![Out::<T>::Close]);
                lemma_spells_split(ts, pos, seq![Out::<T>::Open], os);
                assert(token_is(ts.toks@[pos + 0], Out::<T>::Open));
                assert(token_is(ts.toks@[pos + 1 + os.len() + 0], Out::<T>::Close));
                lemma_coord_parse(ts, c, dim, pos + 1);
                assert(s == Shape::Point(Some(c)));
            } else {
                assert(token_is(ts.toks@[pos + 0], Out::<T>::Word("EMPTY"@)));
                assert(s == Shape::<T>::Point(None));
            }
        },
        Item::Ring => {
            let r = s->LineString_0;
            if r.len() == 0 {
                assert(token_is(ts.toks@[pos + 0], Out::<T>::Word("EMPTY"@)));
                assert(r =~= seq![]);
            } else {
                lemma_coords_list(r);
                let os = coords_outs(r);
                lemma_spells_split(ts, pos, seq![Out::<T>::Open] + os, seq![Out::<T>::Close]);
                lemma_spells_split(ts, pos, seq![Out::<T>::Open], os);
                assert(token_is(ts.toks@[pos + 0], Out::<T>::Open));
                assert(token_is(ts.toks@[pos + 1 + os.len() + 0], Out::<T>::Close));
                let cs = coord_items(r);
                assert forall|i: int| 0 <= i < cs.len() implies item_ok(Item::Coord, #[trigger] cs[i], dim) by {
                    assert(coord_dim(r[i]) == dim);
                }
                lemma_items_parse(ts, Item::Coord, dim, pos + 1, depth, cs, 0);
                assert(cs.skip(0) =~= cs);
                assert(coords_of(cs) =~= r);
            }
        },
        Item::Polygon => {
            let q = s->Polygon_0;
            if q.len() == 0 {
                assert(token_is(ts.toks@[pos + 0], Out::<T>::Word("EMPTY"@)));
                assert(q =~= seq![]);
            } else {
                lemma_rings_list(q);
                let os = rings_outs(q);
                lemma_spells_split(ts, pos, seq![Out::<T>::Open] + os, seq![Out::<T>::Close]);
                lemma_spells_split(ts, pos, seq![Out::<T>::Open], os);
                assert(token_is(ts.toks@[pos + 0], Out::<T>::Open));
                assert(token_is(ts.toks@[pos + 1 + os.len() + 0], Out::<T>::Close));
                let rs = ring_items(q);
                assert forall|i: int| 0 <= i < rs.len() implies item_ok(Item::Ring, #[trigger] rs[i], dim) by {
                    assert(coords_in(q[i], dim));
                }
                lemma_items_parse(ts, Item::Ring, dim, pos + 1, depth, rs, 0);
                assert(rs.skip(0) =~= rs);
                assert(rings_of(rs) =~= q);
            }
        },
        Item::Member => {},
    }
}

proof fn lemma_items_parse<T>(ts: Tokens<T>, it: Item, dim: Dimension, pos: int, depth: nat, ss: Seq<Shape<T>>, k: int)
    requires
        0 <= k < ss.len(),
        forall|i: int| k <= i < ss.len() ==> item_ok(it, #[trigger] ss[i], dim),
        spells(ts, pos, list_outs(it, ss, k)),
        !crate::parser::is_comma_at(ts, pos + list_outs(it, ss, k).len()),
    ensures
        items(ts, it, dim, pos, depth) == Ok::<(Seq<Shape<T>>, nat), &'static str>((ss.skip(k), list_outs(it, ss, k).len())),
    decreases rank(it), ss.len() - k, 1nat,
{
    let n = item_outs(it, ss[k]).len();
    if k == ss.len() - 1 {
        lemma_item_parse(ts, it, dim, pos, depth, ss[k]);
        assert(ss.skip(k) =~= seq![ss[k]]);
    } else {
        let rest = list_outs(it, ss, k + 1);
        lemma_spells_split(ts, pos, item_outs(it, ss[k]) + seq![Out::<T>::Comma], rest);
        lemma_spells_split(ts, pos, item_outs(it, ss[k]), seq![Out::<T>::Comma]);
        lemma_item_parse(ts, it, dim, pos, depth, ss[k]);
        assert(token_is(ts.toks@[pos + n + 0], Out::<T>::Comma));
        assert(pos + n + 1 + rest.len() == pos + list_outs(it, ss, k).len());
        lemma_items_parse(ts, it, dim, pos + n + 1, depth, ss, k + 1);
        assert(seq![ss[k]] + ss.skip(k + 1) =~= ss.skip(k));
    }
}

/// Whether the body of a geometry is written `EMPTY`.
pub open spec fn is_empty<T>(g: Shape<T>) -> bool {
    match g {
        Shape::Point(p) => p is None,
        Shape::LineString(v) => v.len() == 0,
        Shape::Polygon(v) => v.len() == 0,
        Shape::MultiPoint(v) => v.len() == 0,
        Shape::MultiLineString(v) => v.len() == 0,
        Shape::MultiPolygon(v) => v.len() == 0,
        Shape::GeometryCollection(v) => v.len() == 0,
    }
}

/// What a non-empty geometry writes between its parentheses.
pub open spec fn inside_outs<T>(g: Shape<T>) -> Seq<Out<T>> {
    match g {
        Shape::Point(p) => coord_outs(p->0),
        Shape::LineString(cs) => coords_outs(cs),
        Shape::Polygon(rs) => rings_outs(rs),
        Shape::MultiPoint(ps) => points_outs(ps),
        Shape::MultiLineString(rs) => rings_outs(rs),
        Shape::MultiPolygon(qs) => polygons_outs(qs),
        Shape::GeometryCollection(ms) => members_outs(ms, ms.len() as int),
    }
}

proof fn lemma_outs_shape<T>(g: Shape<T>)
    ensures
        wkt_outs(g) == header(g) + if is_empty(g) {
            seq![Out::<T>::Word("EMPTY"@)]
        } else {
            wrap(inside_outs(g))
        },
        keyword(g) == match kind_of(g) {
            Kind::Point => "POINT"@,
            Kind::LineString => "LINESTRING"@,
            Kind::Polygon => "POLYGON"@,
            Kind::MultiPoint => "MULTIPOINT"@,
            Kind::MultiLineString => "MULTILINESTRING"@,
            Kind::MultiPolygon => "MULTIPOLYGON"@,
            Kind::GeometryCollection => "GEOMETRYCOLLECTION"@,
        },
        is_empty(g) ==> crate::parser::empty_shape::<T>(kind_of(g)) == g,
{
    match g {
        Shape::Point(p) => {},
        Shape::LineString(v) => { if v.len() == 0 { assert(v =~= seq![]); } },
        Shape::Polygon(v) => { if v.len() == 0 { assert(v =~= seq![]); } },
        Shape::MultiPoint(v) => { if v.len() == 0 { assert(v =~= seq![]); } },
        Shape::MultiLineString(v) => { if v.len() == 0 { assert(v =~= seq![]); } },
        Shape::MultiPolygon(v) => { if v.len() == 0 { assert(v =~= seq![]); } },
        Shape::GeometryCollection(v) => { if v.len() == 0 { assert(v =~= seq![]); } },
    }
}

/// The inside of a non-empty geometry parses back to it.
proof fn lemma_inner_parse<T>(ts: Tokens<T>, g: Shape<T>, dim: Dimension, pos: int, depth: nat)
    requires
        readable(g, depth),
        !is_empty(g),
        dim == dim_of(g),
        spells(ts, pos, inside_outs(g)),
        at(ts, pos + inside_outs(g).len()) matches Some(Token::ParenClose),
    ensures
        inner(ts, kind_of(g), dim, pos, depth) == Ok::<(Shape<T>, nat), &'static str>((g, inside_outs(g).len())),
    decreases g, 1int,
{
    match g {
        Shape::Point(p) => {
            lemma_coord_parse(ts, p->0, dim, pos);
        },
        Shape::LineString(cs) => {
            lemma_coords_list(cs);
            let ss = coord_items(cs);
            assert forall|i: int| 0 <= i < ss.len() implies item_ok(Item::Coord, #[trigger] ss[i], dim) by {
                assert(coord_dim(cs[i]) == dim);
            }
            lemma_items_parse(ts, Item::Coord, dim, pos, depth, ss, 0);
            assert(ss.skip(0) =~= ss);
            assert(coords_of(ss) =~= cs);
        },
        Shape::Polygon(rs) => {
            lemma_rings_list(rs);
            let ss = ring_items(rs);
            assert forall|i: int| 0 <= i < ss.len() implies item_ok(Item::Ring, #[trigger] ss[i], dim) by {
                assert(coords_in(rs[i], dim));
            }
            lemma_items_parse(ts, Item::Ring, dim, pos, depth, ss, 0);
            assert(ss.skip(0) =~= ss);
            assert(rings_of(ss) =~= rs);
        },
        Shape::MultiLineString(rs) => {
            lemma_rings_list(rs);
            let ss = ring_items(rs);
            assert forall|i: int| 0 <= i < ss.len() implies item_ok(Item::Ring, #[trigger] ss[i], dim) by {
                assert(coords_in(rs[i], dim));
            }
            lemma_items_parse(ts, Item::Ring, dim, pos, depth, ss, 0);
            assert(ss.skip(0) =~= ss);
            assert(rings_of(ss) =~= rs);
        },
        Shape::MultiPoint(ps) => {
            lemma_points_list(ps);
            let ss = point_items(ps);
            assert forall|i: int| 0 <= i < ss.len() implies item_ok(Item::Point, #[trigger] ss[i], dim) by {
                if ps[i] is Some {
                    assert(coord_dim(ps[i]->0) == dim);
                }
            }
            lemma_items_parse(ts, Item::Point, dim, pos, depth, ss, 0);
            assert(ss.skip(0) =~= ss);
            assert(points_of(ss) =~= ps);
        },
        Shape::MultiPolygon(qs) => {
            lemma_polygons_list(qs);
            let ss = polygon_items(qs);
            assert forall|i: int| 0 <= i < ss.len() implies item_ok(Item::Polygon, #[trigger] ss[i], dim) by {
                assert(rings_in(qs[i], dim));
            }
            lemma_items_parse(ts, Item::Polygon, dim, pos, depth, ss, 0);
            assert(ss.skip(0) =~= ss);
            assert(polygons_of(ss) =~= qs);
        },
        Shape::GeometryCollection(ms) => {
            lemma_members_list(ms, ms.len() as int);
            assert(ms.take(ms.len() as int) =~= ms);
            lemma_members_parse(ts, dim, pos, depth + 1, ms, 0);
            assert(ms.skip(0) =~= ms);
        },
    }
}

proof fn lemma_members_parse<T>(ts: Tokens<T>, dim: Dimension, pos: int, depth: nat, ms: Seq<Shape<T>>, k: int)
    requires
        0 <= k < ms.len(),
        forall|i: int| k <= i < ms.len() ==> readable(#[trigger] ms[i], depth),
        spells(ts, pos, list_outs(Item::Member, ms, k)),
        !crate::parser::is_comma_at(ts, pos + list_outs(Item::Member, ms, k).len()),
    ensures
        items(ts, Item::Member, dim, pos, depth) == Ok::<(Seq<Shape<T>>, nat), &'static str>((ms.skip(k), list_outs(Item::Member, ms, k).len())),
    decreases ms, ms.len() - k,
{
    let g = ms[k];
    let n = wkt_outs(g).len();
    lemma_outs_shape(g);
    assert(token_is(ts.toks@[pos + 0], Out::<T>::Word(keyword(g))));
    assert(spells(ts, pos, wkt_outs(g))) by {
        if k < ms.len() - 1 {
            lemma_spells_split(ts, pos, wkt_outs(g) + seq![Out::<T>::Comma], list_outs(Item::Member, ms, k + 1));
            lemma_spells_split(ts, pos, wkt_outs(g), seq![Out::<T>::Comma]);
        }
    }
    lemma_from_word_parse(ts, g, pos + 1, depth);
    let w = ts.toks@[pos]->Word_0;
    assert(w@ == keyword(g));
    assert(n >= 1);
    assert(item(ts, Item::Member, dim, pos, depth) == Ok::<(Shape<T>, nat), &'static str>((g, n)));
    if k == ms.len() - 1 {
        assert(ms.skip(k) =~= seq![g]);
    } else {
        let rest = list_outs(Item::Member, ms, k + 1);
        lemma_spells_split(ts, pos, wkt_outs(g) + seq![Out::<T>::Comma], rest);
        lemma_spells_split(ts, pos, wkt_outs(g), seq![Out::<T>::Comma]);
        assert(token_is(ts.toks@[pos + n + 0], Out::<T>::Comma));
        assert(pos + n + 1 + rest.len() == pos + list_outs(Item::Member, ms, k).len());
        lemma_members_parse(ts, dim, pos + n + 1, depth, ms, k + 1);
        assert(seq![g] + ms.skip(k + 1) =~= ms.skip(k));
    }
}

/// A geometry whose keyword has been read parses back from the tokens it is
/// written as.
proof fn lemma_from_word_parse<T>(ts: Tokens<T>, g: Shape<T>, pos: int, depth: nat)
    requires
        pos >= 1,
        readable(g, depth),
        spells(ts, pos - 1, wkt_outs(g)),
    ensures
        from_word(ts, keyword(g), pos, depth) == Ok::<(Shape<T>, nat), &'static str>((g, (wkt_outs(g).len() - 1) as nat)),
    decreases g, 2int,
{
    lemma_keywords();
    lemma_outs_shape(g);
    let k = kind_of(g);
    let dim = dim_of(g);
    let marked = dim != Dimension::XY;
    let c: int = if marked { 1 } else { 0 };
    assert(word_kind(keyword(g)) == Some::<(Kind, Option<Dimension>)>((k, None)));
    let hd = header(g);
    assert(hd.len() == 1 + c);
    let tail = if is_empty(g) { seq![Out::<T>::Word("EMPTY"@)] } else { wrap(inside_outs(g)) };
    lemma_spells_split(ts, pos - 1, hd, tail);
    if marked {
        assert(token_is(ts.toks@[pos - 1 + 1], marker_outs::<T>(dim)[0]));
        assert(infer_dim(ts, pos) == Ok::<(Dimension, nat), &'static str>((dim, 1nat)));
    }
    if is_empty(g) {
        assert(token_is(ts.toks@[pos + c + 0], Out::<T>::Word("EMPTY"@)));
        if !marked {
            assert(infer_dim(ts, pos) == Ok::<(Dimension, nat), &'static str>((Dimension::XY, 0nat)));
        }
        assert(body(ts, k, dim, pos + c, depth) == Ok::<(Shape<T>, nat), &'static str>((g, 1nat)));
    } else {
        let ins = inside_outs(g);
        lemma_spells_split(ts, pos + c, seq![Out::<T>::Open] + ins, seq![Out::<T>::Close]);
        lemma_spells_split(ts, pos + c, seq![Out::<T>::Open], ins);
        assert(token_is(ts.toks@[pos + c + 0], Out::<T>::Open));
        assert(token_is(ts.toks@[pos + c + 1 + ins.len() + 0], Out::<T>::Close));
        if !marked {
            assert(infer_dim(ts, pos) == Ok::<(Dimension, nat), &'static str>((Dimension::XY, 0nat)));
        }
        if let Shape::GeometryCollection(ms) = g {
            assert(depth < MAX_DEPTH);
        }
        lemma_inner_parse(ts, g, dim, pos + c + 1, depth);
        assert(body(ts, k, dim, pos + c, depth) == Ok::<(Shape<T>, nat), &'static str>((g, (ins.len() + 2) as nat)));
    }
}

/// A token stream that holds the tokens a readable geometry is written as,
/// words and numbers exactly, parses to that geometry; what follows them is
/// not read.
pub proof fn lemma_parse_written<T>(ts: Tokens<T>, g: Shape<T>)
    requires
        readable(g, 0),
        spells(ts, 0, wkt_outs(g)),
    ensures
        parse_tokens(ts) == Ok::<Shape<T>, &'static str>(g),
{
    lemma_outs_shape(g);
    assert(token_is(ts.toks@[0int + 0int], Out::<T>::Word(keyword(g))));
    lemma_from_word_parse(ts, g, 1, 0);
}

/// The separators that `render` puts after each lexeme, with `p` before the first.
pub open spec fn canonical_seps(ls: Seq<Lexeme>, p: Seq<char>) -> Seq<Seq<char>> {
    seq![p] + Seq::new(ls.len(), |i: int| if i + 1 < ls.len() { gap(ls[i], ls[i + 1]) } else { seq![] })
}

proof fn lemma_render_canonical(ls: Seq<Lexeme>, p: Seq<char>)
    ensures
        render_with(ls, canonical_seps(ls, p)) == p + render(ls),
    decreases ls.len(),
{
    let seps = canonical_seps(ls, p);
    if ls.len() == 0 {
        assert(p + render(ls) =~= p);
    } else if ls.len() == 1 {
        assert(seps.drop_first() =~= seq![Seq::<char>::empty()]);
        assert(render_with(ls.drop_first(), seps.drop_first()) == Seq::<char>::empty());
        assert(p + piece_text(ls[0]) + Seq::<char>::empty() =~= p + piece_text(ls[0]));
    } else {
        let ls2 = ls.drop_first();
        let q = gap(ls[0], ls[1]);
        assert(seps.drop_first() =~= canonical_seps(ls2, q));
        lemma_render_canonical(ls2, q);
        assert(p + piece_text(ls[0]) + (q + render(ls2)) =~= p + (piece_text(ls[0]) + q + render(ls2)));
    }
}

proof fn lemma_canonical_separates(ls: Seq<Lexeme>)
    ensures
        separates(ls, canonical_seps(ls, seq![])),
{
    let seps = canonical_seps(ls, seq![]);
    assert forall|i: int| 0 <= i < seps.len() implies all_space(#[trigger] seps[i]) by {
        if i > 0 && i < ls.len() {
            assert(seps[i] == gap(ls[i - 1], ls[i]));
        }
    }
    assert forall|i: int| 0 < i < ls.len() && is_atom(ls[i - 1]) && is_atom(#[trigger] ls[i]) implies seps[i].len() > 0 by {
        assert(seps[i] == gap(ls[i - 1], ls[i]));
    }
}

/// Reading back what was written gives the geometry back.
///
/// `text` is any text that the writer may give for `g`: the rendering of
/// lexemes that write `wkt_outs(g)`, its numbers written by numerals that
/// start like a number and hold no space or delimiter. Where the tokenizer
/// read every numeral of it as the number that was written, parsing the
/// tokens gives `g`, for every readable geometry of every kind and every
/// dimension (`XY`, `XYZ`, `XYM`, `XYZM`), empty or not at any level.
pub proof fn lemma_round_trip<T: core::fmt::Display>(g: Shape<T>, ls: Seq<Lexeme>, text: Seq<char>, ts: Tokens<T>)
    requires
        readable(g, 0),
        writes(ls, wkt_outs(g)),
        text == render(ls),
        forall|i: int| 0 <= i < ls.len() ==> well_formed(#[trigger] ls[i]),
        tokenizes(text, ts.toks@, ts.fault),
        ts.toks@.len() == ls.len(),
        forall|i: int| 0 <= i < ls.len() && (#[trigger] ts.toks@[i]) is Number ==> ts.toks@[i] == Token::<T>::Number(wkt_outs(g)[i]->Num_0),
    ensures
        parse_tokens(ts) == Ok::<Shape<T>, &'static str>(g),
{
    lemma_render_canonical(ls, seq![]);
    assert(Seq::<char>::empty() + render(ls) =~= render(ls));
    lemma_canonical_separates(ls);
    lemma_lex_render(ls, canonical_seps(ls, seq![]));
    assert(lex(text).0 == ls);
    let os = wkt_outs(g);
    assert forall|i: int| 0 <= i < os.len() implies token_is(#[trigger] ts.toks@[0 + i], os[i]) by {
        assert(fits(ls[i], os[i]));
        assert(crate::tokenizer::token_of(ls[i], ts.toks@[i]));
    }
    lemma_parse_written(ts, g);
}

} // verus!
