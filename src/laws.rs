//! Laws that relate texts, tokens and parses.
use vstd::prelude::*;
use crate::parser::{
    base_kind, body, from_word, infer_dim, inner, item, items, marker_dim, parse_tokens,
    same_letter, tagged, word_is, word_kind, Item, Kind,
};
use crate::tokenizer::{
    continues_numeral, is_delimiter, is_letter, is_space, lex, lex_from, starts_numeral, Lexeme,
    Token, Tokens,
};
use crate::types::Dimension;
use crate::writer::{is_atom, piece_text};

verus! {

/// Two words that the parser cannot tell apart.
pub open spec fn same_word(a: Seq<char>, b: Seq<char>) -> bool {
    &&& word_kind(a) == word_kind(b)
    &&& marker_dim(a) == marker_dim(b)
    &&& word_is(a, "EMPTY"@) == word_is(b, "EMPTY"@)
}

/// Two tokens that the parser cannot tell apart.
pub open spec fn same_token<T>(a: Token<T>, b: Token<T>) -> bool {
    match (a, b) {
        (Token::Word(x), Token::Word(y)) => same_word(x@, y@),
        (Token::Number(x), Token::Number(y)) => x == y,
        (Token::ParenOpen, Token::ParenOpen) => true,
        (Token::ParenClose, Token::ParenClose) => true,
        (Token::Comma, Token::Comma) => true,
        _ => false,
    }
}

/// From `p1` in `ts1` and `p2` in `ts2` on, the streams hold tokens that the
/// parser cannot tell apart, and end in the same way.
pub open spec fn agree<T>(ts1: Tokens<T>, p1: int, ts2: Tokens<T>, p2: int) -> bool {
    &&& 0 <= p1 && 0 <= p2
    &&& ts1.fault == ts2.fault
    &&& ts1.toks@.len() - p1 == ts2.toks@.len() - p2
    &&& forall|k: int| 0 <= k < ts1.toks@.len() - p1 ==> same_token(#[trigger] ts1.toks@[p1 + k], ts2.toks@[p2 + k])
}

proof fn lemma_agree_later<T>(ts1: Tokens<T>, p1: int, ts2: Tokens<T>, p2: int, d: int)
    requires
        agree(ts1, p1, ts2, p2),
        d >= 0,
    ensures
        agree(ts1, p1 + d, ts2, p2 + d),
{
    assert forall|k: int| 0 <= k < ts1.toks@.len() - (p1 + d) implies same_token(#[trigger] ts1.toks@[p1 + d + k], ts2.toks@[p2 + d + k]) by {
        assert(same_token(ts1.toks@[p1 + (d + k)], ts2.toks@[p2 + (d + k)]));
    }
}

proof fn lemma_coord_agree<T>(ts1: Tokens<T>, ts2: Tokens<T>, dim: Dimension, p1: int, p2: int)
    requires
        agree(ts1, p1, ts2, p2),
    ensures
        crate::parser::coord_at(ts1, dim, p1) == crate::parser::coord_at(ts2, dim, p2),
{
    let n = ts1.toks@.len() - p1;
    if 0 < n {
        assert(same_token(ts1.toks@[p1 + 0], ts2.toks@[p2 + 0]));
    }
    if 1 < n {
        assert(same_token(ts1.toks@[p1 + 1], ts2.toks@[p2 + 1]));
    }
    if 2 < n {
        assert(same_token(ts1.toks@[p1 + 2], ts2.toks@[p2 + 2]));
    }
    if 3 < n {
        assert(same_token(ts1.toks@[p1 + 3], ts2.toks@[p2 + 3]));
    }
}

proof fn lemma_item_agree<T>(ts1: Tokens<T>, ts2: Tokens<T>, it: Item, dim: Dimension, p1: int, p2: int, depth: nat)
    requires
        agree(ts1, p1, ts2, p2),
    ensures
        item(ts1, it, dim, p1, depth) == item(ts2, it, dim, p2, depth),
    decreases ts1.toks@.len() - p1, 2nat,
{
    if p1 < ts1.toks@.len() {
        assert(same_token(ts1.toks@[p1 + 0], ts2.toks@[p2 + 0]));
    }
    if p1 + 2 < ts1.toks@.len() {
        assert(same_token(ts1.toks@[p1 + 1], ts2.toks@[p2 + 1]));
        assert(same_token(ts1.toks@[p1 + 2], ts2.toks@[p2 + 2]));
    } else if p1 + 1 < ts1.toks@.len() {
        assert(same_token(ts1.toks@[p1 + 1], ts2.toks@[p2 + 1]));
    }
    lemma_coord_agree(ts1, ts2, dim, p1, p2);
    match it {
        Item::Coord => {},
        Item::Ring => lemma_body_agree(ts1, ts2, Kind::LineString, dim, p1, p2, depth),
        Item::Polygon => lemma_body_agree(ts1, ts2, Kind::Polygon, dim, p1, p2, depth),
        Item::Point => {
            lemma_body_agree(ts1, ts2, Kind::Point, dim, p1, p2, depth);
            lemma_inner_agree(ts1, ts2, Kind::Point, dim, p1, p2, depth);
        },
        Item::Member => {
            if p1 < ts1.toks@.len() {
                if let Token::Word(w1) = ts1.toks@[p1] {
                    if let Token::Word(w2) = ts2.toks@[p2] {
                        lemma_agree_later(ts1, p1, ts2, p2, 1);
                        lemma_from_word_agree(ts1, ts2, w1@, w2@, p1 + 1, p2 + 1, depth);
                    }
                }
            }
        },
    }
}

proof fn lemma_items_agree<T>(ts1: Tokens<T>, ts2: Tokens<T>, it: Item, dim: Dimension, p1: int, p2: int, depth: nat)
    requires
        agree(ts1, p1, ts2, p2),
    ensures
        items(ts1, it, dim, p1, depth) == items(ts2, it, dim, p2, depth),
    decreases ts1.toks@.len() - p1, 3nat,
{
    lemma_item_agree(ts1, ts2, it, dim, p1, p2, depth);
    if let Ok((s, n)) = item(ts1, it, dim, p1, depth) {
        if p1 + n < ts1.toks@.len() {
            assert(same_token(ts1.toks@[p1 + n], ts2.toks@[p2 + n]));
        }
        if crate::parser::is_comma_at(ts1, p1 + n) {
            lemma_agree_later(ts1, p1, ts2, p2, (n + 1) as int);
            lemma_items_agree(ts1, ts2, it, dim, p1 + n + 1, p2 + n + 1, depth);
        }
    }
}

proof fn lemma_inner_agree<T>(ts1: Tokens<T>, ts2: Tokens<T>, k: Kind, dim: Dimension, p1: int, p2: int, depth: nat)
    requires
        agree(ts1, p1, ts2, p2),
    ensures
        inner(ts1, k, dim, p1, depth) == inner(ts2, k, dim, p2, depth),
    decreases ts1.toks@.len() - p1, if k == Kind::Point { 1nat } else { 4nat },
{
    if p1 + 2 < ts1.toks@.len() {
        assert(same_token(ts1.toks@[p1 + 0], ts2.toks@[p2 + 0]));
        assert(same_token(ts1.toks@[p1 + 1], ts2.toks@[p2 + 1]));
        assert(same_token(ts1.toks@[p1 + 2], ts2.toks@[p2 + 2]));
    } else if p1 + 1 < ts1.toks@.len() {
        assert(same_token(ts1.toks@[p1 + 0], ts2.toks@[p2 + 0]));
        assert(same_token(ts1.toks@[p1 + 1], ts2.toks@[p2 + 1]));
    } else if p1 < ts1.toks@.len() {
        assert(same_token(ts1.toks@[p1 + 0], ts2.toks@[p2 + 0]));
    }
    lemma_coord_agree(ts1, ts2, dim, p1, p2);
    match k {
        Kind::Point => {},
        Kind::LineString => lemma_items_agree(ts1, ts2, Item::Coord, dim, p1, p2, depth),
        Kind::Polygon => lemma_items_agree(ts1, ts2, Item::Ring, dim, p1, p2, depth),
        Kind::MultiPoint => lemma_items_agree(ts1, ts2, Item::Point, dim, p1, p2, depth),
        Kind::MultiLineString => lemma_items_agree(ts1, ts2, Item::Ring, dim, p1, p2, depth),
        Kind::MultiPolygon => lemma_items_agree(ts1, ts2, Item::Polygon, dim, p1, p2, depth),
        Kind::GeometryCollection => {
            if depth < crate::parser::MAX_DEPTH {
                lemma_items_agree(ts1, ts2, Item::Member, dim, p1, p2, depth + 1);
            }
        },
    }
}

proof fn lemma_body_agree<T>(ts1: Tokens<T>, ts2: Tokens<T>, k: Kind, dim: Dimension, p1: int, p2: int, depth: nat)
    requires
        agree(ts1, p1, ts2, p2),
    ensures
        body(ts1, k, dim, p1, depth) == body(ts2, k, dim, p2, depth),
    decreases ts1.toks@.len() - p1, 0nat,
{
    if p1 < ts1.toks@.len() {
        assert(same_token(ts1.toks@[p1 + 0], ts2.toks@[p2 + 0]));
        if ts1.toks@[p1] is ParenOpen {
            lemma_agree_later(ts1, p1, ts2, p2, 1);
            lemma_inner_agree(ts1, ts2, k, dim, p1 + 1, p2 + 1, depth);
            if let Ok((g, n)) = inner(ts1, k, dim, p1 + 1, depth) {
                if p1 + 1 + n < ts1.toks@.len() {
                    assert(same_token(ts1.toks@[p1 + (1 + n)], ts2.toks@[p2 + (1 + n)]));
                }
            }
        }
    }
}

proof fn lemma_tagged_agree<T>(ts1: Tokens<T>, ts2: Tokens<T>, k: Kind, fused: Option<Dimension>, p1: int, p2: int, depth: nat)
    requires
        agree(ts1, p1, ts2, p2),
    ensures
        tagged(ts1, k, fused, p1, depth) == tagged(ts2, k, fused, p2, depth),
    decreases ts1.toks@.len() - p1, 1nat,
{
    if p1 < ts1.toks@.len() {
        assert(same_token(ts1.toks@[p1 + 0], ts2.toks@[p2 + 0]));
    }
    lemma_body_agree(ts1, ts2, k, Dimension::XY, p1, p2, depth);
    if fused is Some {
        lemma_body_agree(ts1, ts2, k, fused->0, p1, p2, depth);
    }
    if p1 < ts1.toks@.len() {
        lemma_agree_later(ts1, p1, ts2, p2, 1);
        lemma_body_agree(ts1, ts2, k, Dimension::XYZ, p1 + 1, p2 + 1, depth);
        lemma_body_agree(ts1, ts2, k, Dimension::XYM, p1 + 1, p2 + 1, depth);
        lemma_body_agree(ts1, ts2, k, Dimension::XYZM, p1 + 1, p2 + 1, depth);
    }
}

proof fn lemma_from_word_agree<T>(ts1: Tokens<T>, ts2: Tokens<T>, w1: Seq<char>, w2: Seq<char>, p1: int, p2: int, depth: nat)
    requires
        agree(ts1, p1, ts2, p2),
        word_kind(w1) == word_kind(w2),
    ensures
        from_word(ts1, w1, p1, depth) == from_word(ts2, w2, p2, depth),
    decreases ts1.toks@.len() - p1, 2nat,
{
    if let Some((k, fused)) = word_kind(w1) {
        lemma_tagged_agree(ts1, ts2, k, fused, p1, p2, depth);
    }
}

/// Token streams that the parser cannot tell apart parse alike.
pub proof fn lemma_parse_congruent<T>(ts1: Tokens<T>, ts2: Tokens<T>)
    requires
        agree(ts1, 0, ts2, 0),
    ensures
        parse_tokens(ts1) == parse_tokens(ts2),
{
    if ts1.toks@.len() > 0 {
        assert(same_token(ts1.toks@[0int + 0int], ts2.toks@[0int + 0int]));
        if let Token::Word(w1) = ts1.toks@[0] {
            if let Token::Word(w2) = ts2.toks@[0] {
                lemma_agree_later(ts1, 0, ts2, 0, 1);
                lemma_from_word_agree(ts1, ts2, w1@, w2@, 1, 1, 0);
            }
        }
    }
}

/// Two characters that are equal but for ASCII case.
pub open spec fn same_but_case(a: char, b: char) -> bool {
    a as u32 == b as u32 || (is_letter(a) && is_letter(b) && (a as u32 == b as u32 + 32 || b as u32 == a as u32 + 32))
}

pub open spec fn words_same_but_case(a: Seq<char>, b: Seq<char>) -> bool {
    a.len() == b.len() && forall|i: int| 0 <= i < a.len() ==> same_but_case(#[trigger] a[i], b[i])
}

/// Two tokens that are equal but for the case of a word's letters.
pub open spec fn tokens_same_but_case<T>(a: Token<T>, b: Token<T>) -> bool {
    match (a, b) {
        (Token::Word(x), Token::Word(y)) => words_same_but_case(x@, y@),
        _ => same_token(a, b),
    }
}

/// `kw` holds no lower-case ASCII letter.
pub open spec fn upper_case(kw: Seq<char>) -> bool {
    forall|i: int| 0 <= i < kw.len() ==> !(97 <= (#[trigger] kw[i]) as u32 <= 122)
}

proof fn lemma_word_is_case(a: Seq<char>, b: Seq<char>, kw: Seq<char>)
    requires
        words_same_but_case(a, b),
        upper_case(kw),
    ensures
        word_is(a, kw) == word_is(b, kw),
{
    if word_is(a, kw) {
        assert forall|i: int| 0 <= i < b.len() implies same_letter(#[trigger] b[i], kw[i]) by {
            assert(same_letter(a[i], kw[i]));
            assert(same_but_case(a[i], b[i]));
            assert(!(97 <= kw[i] as u32 <= 122));
        }
    }
    if word_is(b, kw) {
        assert forall|i: int| 0 <= i < a.len() implies same_letter(#[trigger] a[i], kw[i]) by {
            assert(same_letter(b[i], kw[i]));
            assert(same_but_case(a[i], b[i]));
            assert(!(97 <= kw[i] as u32 <= 122));
        }
    }
}

proof fn lemma_keywords_upper()
    ensures
        upper_case("POINT"@),
        upper_case("LINESTRING"@),
        upper_case("LINEARRING"@),
        upper_case("POLYGON"@),
        upper_case("MULTIPOINT"@),
        upper_case("MULTILINESTRING"@),
        upper_case("MULTIPOLYGON"@),
        upper_case("GEOMETRYCOLLECTION"@),
        upper_case("Z"@),
        upper_case("M"@),
        upper_case("ZM"@),
        upper_case("EMPTY"@),
{
    reveal_strlit("POINT");
    reveal_strlit("LINESTRING");
    reveal_strlit("LINEARRING");
    reveal_strlit("POLYGON");
    reveal_strlit("MULTIPOINT");
    reveal_strlit("MULTILINESTRING");
    reveal_strlit("MULTIPOLYGON");
    reveal_strlit("GEOMETRYCOLLECTION");
    reveal_strlit("Z");
    reveal_strlit("M");
    reveal_strlit("ZM");
    reveal_strlit("EMPTY");
}

proof fn lemma_base_kind_case(a: Seq<char>, b: Seq<char>)
    requires
        words_same_but_case(a, b),
    ensures
        base_kind(a) == base_kind(b),
{
    lemma_keywords_upper();
    lemma_word_is_case(a, b, "POINT"@);
    lemma_word_is_case(a, b, "LINESTRING"@);
    lemma_word_is_case(a, b, "LINEARRING"@);
    lemma_word_is_case(a, b, "POLYGON"@);
    lemma_word_is_case(a, b, "MULTIPOINT"@);
    lemma_word_is_case(a, b, "MULTILINESTRING"@);
    lemma_word_is_case(a, b, "MULTIPOLYGON"@);
    lemma_word_is_case(a, b, "GEOMETRYCOLLECTION"@);
}

proof fn lemma_marker_case(a: Seq<char>, b: Seq<char>)
    requires
        words_same_but_case(a, b),
    ensures
        marker_dim(a) == marker_dim(b),
        word_is(a, "EMPTY"@) == word_is(b, "EMPTY"@),
{
    lemma_keywords_upper();
    lemma_word_is_case(a, b, "Z"@);
    lemma_word_is_case(a, b, "M"@);
    lemma_word_is_case(a, b, "ZM"@);
    lemma_word_is_case(a, b, "EMPTY"@);
}

proof fn lemma_same_word_case(a: Seq<char>, b: Seq<char>)
    requires
        words_same_but_case(a, b),
    ensures
        same_word(a, b),
{
    let n = a.len();
    lemma_base_kind_case(a, b);
    lemma_marker_case(a, b);
    if n >= 1 {
        assert(words_same_but_case(a.take(n - 1), b.take(n - 1)));
        assert(words_same_but_case(a.skip(n - 1), b.skip(n - 1)));
        lemma_base_kind_case(a.take(n - 1), b.take(n - 1));
        lemma_marker_case(a.skip(n - 1), b.skip(n - 1));
    }
    if n >= 2 {
        assert(words_same_but_case(a.take(n - 2), b.take(n - 2)));
        assert(words_same_but_case(a.skip(n - 2), b.skip(n - 2)));
        lemma_base_kind_case(a.take(n - 2), b.take(n - 2));
        lemma_marker_case(a.skip(n - 2), b.skip(n - 2));
    }
}

/// Keywords and markers are read without regard to ASCII case: token streams
/// that differ only in the case of their words' letters parse alike.
pub proof fn lemma_keyword_case<T>(ts1: Tokens<T>, ts2: Tokens<T>)
    requires
        ts1.fault == ts2.fault,
        ts1.toks@.len() == ts2.toks@.len(),
        forall|k: int| 0 <= k < ts1.toks@.len() ==> tokens_same_but_case(#[trigger] ts1.toks@[k], ts2.toks@[k]),
    ensures
        parse_tokens(ts1) == parse_tokens(ts2),
{
    assert forall|k: int| 0 <= k < ts1.toks@.len() - 0 implies same_token(#[trigger] ts1.toks@[0 + k], ts2.toks@[0 + k]) by {
        assert(tokens_same_but_case(ts1.toks@[k], ts2.toks@[k]));
        if let Token::Word(x) = ts1.toks@[k] {
            if let Token::Word(y) = ts2.toks@[k] {
                lemma_same_word_case(x@, y@);
            }
        }
    }
    lemma_parse_congruent(ts1, ts2);
}

/// A keyword with its dimension marker fused to it (`POINTZ`) reads as the
/// keyword followed by the marker as a word of its own (`POINT Z`).
pub proof fn lemma_fused_marker<T>(ts1: Tokens<T>, ts2: Tokens<T>, fused: Seq<char>, base: Seq<char>, marker: Seq<char>)
    requires
        ts1.toks@.len() >= 1,
        ts1.toks@[0] matches Token::Word(w) && w@ == fused,
        ts2.toks@.len() >= 2,
        ts2.toks@[0] matches Token::Word(w) && w@ == base,
        ts2.toks@[1] matches Token::Word(w) && w@ == marker,
        base_kind(base) is Some,
        marker_dim(marker) is Some,
        word_kind(fused) == Some((base_kind(base)->0, marker_dim(marker))),
        agree(ts1, 1, ts2, 2),
    ensures
        parse_tokens(ts1) == parse_tokens(ts2),
{
    let k = base_kind(base)->0;
    let d = marker_dim(marker)->0;
    assert(word_kind(base) == Some::<(Kind, Option<Dimension>)>((k, None)));
    assert(infer_dim(ts2, 1) == Ok::<(Dimension, nat), &'static str>((d, 1nat)));
    lemma_body_agree(ts1, ts2, k, d, 1, 2, 0);
}

/// `LINEARRING` is a synonym of `LINESTRING`: a stream that starts with the
/// one parses as the same stream starting with the other, into a line string.
pub proof fn lemma_linearring<T>(ts1: Tokens<T>, ts2: Tokens<T>)
    requires
        ts1.toks@.len() >= 1,
        ts1.toks@[0] matches Token::Word(w) && word_is(w@, "LINEARRING"@),
        ts2.toks@.len() >= 1,
        ts2.toks@[0] matches Token::Word(w) && word_is(w@, "LINESTRING"@),
        agree(ts1, 1, ts2, 1),
    ensures
        parse_tokens(ts1) == parse_tokens(ts2),
        parse_tokens(ts1) is Ok ==> parse_tokens(ts1)->Ok_0 is LineString,
{
    reveal_strlit("POINT");
    reveal_strlit("LINESTRING");
    reveal_strlit("LINEARRING");
    reveal_strlit("Z");
    reveal_strlit("M");
    reveal_strlit("ZM");
    reveal_strlit("EMPTY");
    let a = ts1.toks@[0]->Word_0@;
    let b = ts2.toks@[0]->Word_0@;
    assert(base_kind(a) == Some(Kind::LineString));
    assert(base_kind(b) == Some(Kind::LineString));
    assert(word_kind(a) == word_kind(b));
    lemma_from_word_agree(ts1, ts2, a, b, 1, 1, 0);
    lemma_body_line_string(ts1, 1);
    lemma_body_line_string(ts1, 2);
}

proof fn lemma_body_line_string<T>(ts: Tokens<T>, pos: int)
    ensures
        body(ts, Kind::LineString, Dimension::XY, pos, 0) is Ok ==> body(ts, Kind::LineString, Dimension::XY, pos, 0)->Ok_0.0 is LineString,
        body(ts, Kind::LineString, Dimension::XYZ, pos, 0) is Ok ==> body(ts, Kind::LineString, Dimension::XYZ, pos, 0)->Ok_0.0 is LineString,
        body(ts, Kind::LineString, Dimension::XYM, pos, 0) is Ok ==> body(ts, Kind::LineString, Dimension::XYM, pos, 0)->Ok_0.0 is LineString,
        body(ts, Kind::LineString, Dimension::XYZM, pos, 0) is Ok ==> body(ts, Kind::LineString, Dimension::XYZM, pos, 0)->Ok_0.0 is LineString,
{
}

/// A lexeme whose text lexes back to it: a word of letters, a numeral that
/// starts like a number and holds no space or delimiter.
pub open spec fn well_formed(l: Lexeme) -> bool {
    match l {
        Lexeme::Word(w) => w.len() > 0 && forall|i: int| 0 <= i < w.len() ==> is_letter(#[trigger] w[i]),
        Lexeme::Numeral(n) => n.len() > 0 && starts_numeral(n[0])
            && forall|i: int| 0 <= i < n.len() ==> continues_numeral(#[trigger] n[i]),
        _ => true,
    }
}

pub open spec fn all_space(w: Seq<char>) -> bool {
    forall|i: int| 0 <= i < w.len() ==> is_space(#[trigger] w[i])
}

/// The lexemes written out with `seps[i]` before the `i`-th and `seps[n]` after the last.
pub open spec fn render_with(ls: Seq<Lexeme>, seps: Seq<Seq<char>>) -> Seq<char>
    decreases ls.len(),
{
    if ls.len() == 0 {
        if seps.len() > 0 { seps[0] } else { seq![] }
    } else {
        seps[0] + piece_text(ls[0]) + render_with(ls.drop_first(), seps.drop_first())
    }
}

/// Separators that are white space, with some between two words or numerals.
pub open spec fn separates(ls: Seq<Lexeme>, seps: Seq<Seq<char>>) -> bool {
    &&& seps.len() == ls.len() + 1
    &&& forall|i: int| 0 <= i < seps.len() ==> all_space(#[trigger] seps[i])
    &&& forall|i: int| 0 < i < ls.len() && is_atom(ls[i - 1]) && is_atom(#[trigger] ls[i]) ==> seps[i].len() > 0
}

proof fn lemma_lex_space(w: Seq<char>, s: Seq<char>)
    requires
        all_space(w),
    ensures
        lex_from(w + s, None) == lex_from(s, None),
    decreases w.len(),
{
    if w.len() > 0 {
        assert((w + s).drop_first() =~= w.drop_first() + s);
        lemma_lex_space(w.drop_first(), s);
    } else {
        assert(w + s =~= s);
    }
}

proof fn lemma_lex_word(acc: Seq<char>, w: Seq<char>, s: Seq<char>)
    requires
        forall|i: int| 0 <= i < w.len() ==> is_letter(#[trigger] w[i]),
    ensures
        lex_from(w + s, Some(Lexeme::Word(acc))) == lex_from(s, Some(Lexeme::Word(acc + w))),
    decreases w.len(),
{
    if w.len() > 0 {
        assert((w + s)[0] == w[0]);
        assert((w + s).drop_first() =~= w.drop_first() + s);
        assert(acc.push(w[0]) + w.drop_first() =~= acc + w);
        lemma_lex_word(acc.push(w[0]), w.drop_first(), s);
    } else {
        assert(w + s =~= s);
        assert(acc + w =~= acc);
    }
}

proof fn lemma_lex_numeral(acc: Seq<char>, w: Seq<char>, s: Seq<char>)
    requires
        forall|i: int| 0 <= i < w.len() ==> continues_numeral(#[trigger] w[i]),
    ensures
        lex_from(w + s, Some(Lexeme::Numeral(acc))) == lex_from(s, Some(Lexeme::Numeral(acc + w))),
    decreases w.len(),
{
    if w.len() > 0 {
        assert((w + s)[0] == w[0]);
        assert((w + s).drop_first() =~= w.drop_first() + s);
        assert(acc.push(w[0]) + w.drop_first() =~= acc + w);
        lemma_lex_numeral(acc.push(w[0]), w.drop_first(), s);
    } else {
        assert(w + s =~= s);
        assert(acc + w =~= acc);
    }
}

/// What a rendering starts with: white space, a delimiter, or nothing, where
/// its first lexeme is no word or numeral or its first separator is not empty.
proof fn lemma_render_start(ls: Seq<Lexeme>, seps: Seq<Seq<char>>)
    requires
        separates(ls, seps),
        forall|i: int| 0 <= i < ls.len() ==> well_formed(#[trigger] ls[i]),
        seps[0].len() > 0 || ls.len() == 0 || !is_atom(ls[0]),
    ensures
        render_with(ls, seps).len() == 0 || is_space(render_with(ls, seps)[0]) || is_delimiter(render_with(ls, seps)[0]),
{
    if ls.len() > 0 {
        if seps[0].len() > 0 {
            assert(all_space(seps[0]));
            assert(is_space(seps[0][0]));
        } else {
            assert(seps[0] + piece_text(ls[0]) =~= piece_text(ls[0]));
        }
    } else {
        if seps[0].len() > 0 {
            assert(all_space(seps[0]));
            assert(is_space(seps[0][0]));
        }
    }
}

/// Lexing the rendering of well-formed lexemes gives them back.
pub proof fn lemma_lex_render(ls: Seq<Lexeme>, seps: Seq<Seq<char>>)
    requires
        separates(ls, seps),
        forall|i: int| 0 <= i < ls.len() ==> well_formed(#[trigger] ls[i]),
    ensures
        lex(render_with(ls, seps)) == (ls, false),
    decreases ls.len(),
{
    if ls.len() == 0 {
        assert(all_space(seps[0]));
        lemma_lex_space(seps[0], seq![]);
        assert(seps[0] + Seq::<char>::empty() =~= seps[0]);
        return;
    }
    let l = ls[0];
    let t = piece_text(l);
    let ls2 = ls.drop_first();
    let seps2 = seps.drop_first();
    let rest = render_with(ls2, seps2);
    assert(separates(ls2, seps2)) by {
        assert forall|i: int| 0 < i < ls2.len() && is_atom(ls2[i - 1]) && is_atom(#[trigger] ls2[i]) implies seps2[i].len() > 0 by {
            assert(ls2[i] == ls[i + 1] && ls2[i - 1] == ls[i]);
        }
    }
    assert forall|i: int| 0 <= i < ls2.len() implies well_formed(#[trigger] ls2[i]) by {
        assert(ls2[i] == ls[i + 1]);
    }
    lemma_lex_render(ls2, seps2);
    assert(all_space(seps[0]));
    assert(render_with(ls, seps) == seps[0] + (t + rest)) by {
        assert(seps[0] + t + rest =~= seps[0] + (t + rest));
    }
    lemma_lex_space(seps[0], t + rest);
    assert(well_formed(l));
    if is_atom(l) {
        if ls2.len() > 0 && is_atom(ls2[0]) {
            assert(ls2[0] == ls[1]);
            assert(seps[1].len() > 0);
            assert(seps2[0] == seps[1]);
        }
        lemma_render_start(ls2, seps2);
    }
    match l {
        Lexeme::Word(w) => {
            assert((t + rest)[0] == w[0]);
            assert((t + rest).drop_first() =~= w.drop_first() + rest);
            lemma_lex_word(seq![w[0]], w.drop_first(), rest);
            assert(seq![w[0]] + w.drop_first() =~= w);
            if rest.len() > 0 {
                assert(!is_letter(rest[0]));
            }
        },
        Lexeme::Numeral(n) => {
            assert((t + rest)[0] == n[0]);
            assert((t + rest).drop_first() =~= n.drop_first() + rest);
            lemma_lex_numeral(seq![n[0]], n.drop_first(), rest);
            assert(seq![n[0]] + n.drop_first() =~= n);
            if rest.len() > 0 {
                assert(!continues_numeral(rest[0]));
            }
        },
        _ => {
            assert((t + rest)[0] == t[0]);
            assert((t + rest).drop_first() =~= rest);
        },
    }
    assert(seq![l] + ls2 =~= ls);
}

/// White space between tokens does not matter: two renderings of the same
/// well-formed lexemes, with any separators that keep words and numerals
/// apart, lex alike.
pub proof fn lemma_whitespace(ls: Seq<Lexeme>, seps1: Seq<Seq<char>>, seps2: Seq<Seq<char>>)
    requires
        separates(ls, seps1),
        separates(ls, seps2),
        forall|i: int| 0 <= i < ls.len() ==> well_formed(#[trigger] ls[i]),
    ensures
        lex(render_with(ls, seps1)) == lex(render_with(ls, seps2)),
{
    lemma_lex_render(ls, seps1);
    lemma_lex_render(ls, seps2);
}

} // verus!
