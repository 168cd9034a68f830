//! Splitting WKT text into tokens.
//!
//! [`lex`] states what the text holds: words (runs of ASCII letters), numerals
//! (runs that start like a number and end at white space or a delimiter) and
//! the three delimiters, with white space between them skipped. [`tokenize`]
//! computes it and converts each numeral to a number.
use vstd::prelude::*;
use vstd::std_specs::iter::IteratorSpec;

verus! {

/// Message for a numeral that the coordinate type cannot read.
pub const BAD_NUMBER: &'static str = "Unable to parse input number as the desired output type";

/// Message for a character that starts no token.
pub const BAD_CHARACTER: &'static str = "Encountered an invalid character";

pub open spec fn is_space(c: char) -> bool {
    c == ' ' || c == '\t' || c == '\n' || c == '\r'
}

pub open spec fn is_delimiter(c: char) -> bool {
    c == '(' || c == ')' || c == ','
}

pub open spec fn is_letter(c: char) -> bool {
    ('a' <= c && c <= 'z') || ('A' <= c && c <= 'Z')
}

pub open spec fn starts_numeral(c: char) -> bool {
    ('0' <= c && c <= '9') || c == '.' || c == '-' || c == '+'
}

pub open spec fn continues_numeral(c: char) -> bool {
    !is_space(c) && !is_delimiter(c)
}

/// A token as it stands in the text, numerals not yet converted.
pub enum Lexeme {
    Word(Seq<char>),
    Numeral(Seq<char>),
    ParenOpen,
    ParenClose,
    Comma,
}

/// What lexing yields: the lexemes, and whether it stopped at a character
/// that starts no token.
pub open spec fn prepend(l: Lexeme, r: (Seq<Lexeme>, bool)) -> (Seq<Lexeme>, bool) {
    (seq![l] + r.0, r.1)
}

/// Lexing the rest `s` of a text, where `pending` is the word or numeral
/// whose characters have been read so far.
pub open spec fn lex_from(s: Seq<char>, pending: Option<Lexeme>) -> (Seq<Lexeme>, bool)
    decreases s.len(), if pending is Some { 1nat } else { 0nat },
{
    match pending {
        Some(Lexeme::Word(w)) => {
            if s.len() > 0 && is_letter(s[0]) {
                lex_from(s.drop_first(), Some(Lexeme::Word(w.push(s[0]))))
            } else {
                prepend(Lexeme::Word(w), lex_from(s, None))
            }
        },
        Some(Lexeme::Numeral(n)) => {
            if s.len() > 0 && continues_numeral(s[0]) {
                lex_from(s.drop_first(), Some(Lexeme::Numeral(n.push(s[0]))))
            } else {
                prepend(Lexeme::Numeral(n), lex_from(s, None))
            }
        },
        Some(l) => prepend(l, lex_from(s, None)),
        None => {
            if s.len() == 0 {
                (seq![], false)
            } else {
                let c = s[0];
                let r = s.drop_first();
                if is_space(c) {
                    lex_from(r, None)
                } else if c == '(' {
                    prepend(Lexeme::ParenOpen, lex_from(r, None))
                } else if c == ')' {
                    prepend(Lexeme::ParenClose, lex_from(r, None))
                } else if c == ',' {
                    prepend(Lexeme::Comma, lex_from(r, None))
                } else if is_letter(c) {
                    lex_from(r, Some(Lexeme::Word(seq![c])))
                } else if starts_numeral(c) {
                    lex_from(r, Some(Lexeme::Numeral(seq![c])))
                } else {
                    (seq![], true)
                }
            }
        },
    }
}

/// The lexemes of a text, and whether lexing stopped at an invalid character.
pub open spec fn lex(s: Seq<char>) -> (Seq<Lexeme>, bool) {
    lex_from(s, None)
}

/// A token handed to the parser.
pub enum Token<T> {
    Word(Vec<char>),
    Number(T),
    ParenOpen,
    ParenClose,
    Comma,
}

/// `t` stands for `l`, a numeral by any value.
pub open spec fn token_of<T>(l: Lexeme, t: Token<T>) -> bool {
    match (l, t) {
        (Lexeme::Word(w), Token::Word(v)) => v@ == w,
        (Lexeme::Numeral(_), Token::Number(_)) => true,
        (Lexeme::ParenOpen, Token::ParenOpen) => true,
        (Lexeme::ParenClose, Token::ParenClose) => true,
        (Lexeme::Comma, Token::Comma) => true,
        _ => false,
    }
}

/// The tokens of a text and the error that reading past them raises
/// (`None`: the end of the input).
///
/// They are the lexemes of the text, each numeral converted, up to the first
/// numeral that did not convert; that one raises [`BAD_NUMBER`]. Past the
/// last lexeme comes [`BAD_CHARACTER`] where lexing stopped at an invalid
/// character.
pub open spec fn tokenizes<T>(s: Seq<char>, toks: Seq<Token<T>>, fault: Option<&'static str>) -> bool {
    let lx = lex(s).0;
    &&& toks.len() <= lx.len()
    &&& forall|i: int| 0 <= i < toks.len() ==> token_of(#[trigger] lx[i], toks[i])
    &&& if toks.len() < lx.len() {
        lx[toks.len() as int] is Numeral && fault == Some(BAD_NUMBER)
    } else {
        fault == if lex(s).1 { Some(BAD_CHARACTER) } else { None::<&'static str> }
    }
}

/// The tokens of a text, and what reading past them raises.
pub struct Tokens<T> {
    pub toks: Vec<Token<T>>,
    pub fault: Option<&'static str>,
}

/// The characters of `text`, in order.
fn chars_of(text: &str) -> (r: Vec<char>)
    ensures
        r@ == text@,
{
    broadcast use vstd::string::group_string_axioms;
    let mut it = text.chars();
    let mut v: Vec<char> = Vec::new();
    loop
        invariant_except_break
            v@ + it.remaining() == text@,
            it.decrease() is Some,
        ensures
            v@ == text@,
        decreases it.decrease()->0,
    {
        match it.next() {
            Some(c) => {
                v.push(c);
            },
            None => {
                assert(v@ + it.remaining() =~= v@);
                break ;
            },
        }
    }
    v
}


fn is_space_char(c: char) -> (r: bool)
    ensures
        r == is_space(c),
{
    c == ' ' || c == '\t' || c == '\n' || c == '\r'
}

fn is_letter_char(c: char) -> (r: bool)
    ensures
        r == is_letter(c),
{
    ('a' <= c && c <= 'z') || ('A' <= c && c <= 'Z')
}

fn starts_numeral_char(c: char) -> (r: bool)
    ensures
        r == starts_numeral(c),
{
    ('0' <= c && c <= '9') || c == '.' || c == '-' || c == '+'
}

fn continues_numeral_char(c: char) -> (r: bool)
    ensures
        r == continues_numeral(c),
{
    !is_space_char(c) && c != '(' && c != ')' && c != ','
}

/// The lexeme being read: `kind` 1 is a word, 2 a numeral, 0 none.
spec fn pending_of(chars: Seq<char>, kind: u8, start: int, i: int) -> Option<Lexeme> {
    if kind == 1 {
        Some(Lexeme::Word(chars.subrange(start, i)))
    } else if kind == 2 {
        Some(Lexeme::Numeral(chars.subrange(start, i)))
    } else {
        None
    }
}

spec fn join(done: Seq<Lexeme>, rest: (Seq<Lexeme>, bool)) -> (Seq<Lexeme>, bool) {
    (done + rest.0, rest.1)
}

/// Splits `text` into tokens, converting each numeral with `T`'s `FromStr`.
pub fn tokenize<T: std::str::FromStr>(text: &str) -> (r: Tokens<T>)
    ensures
        tokenizes(text@, r.toks@, r.fault),
{
    let chars = chars_of(text);
    let ascii = text.is_ascii();
    let n = chars.len();
    let mut toks: Vec<Token<T>> = Vec::new();
    let mut i: usize = 0;
    let mut kind: u8 = 0;
    let mut start: usize = 0;
    let ghost mut done: Seq<Lexeme> = seq![];
    let mut fault: Option<&'static str> = None;
    proof {
        assert(chars@.skip(0) =~= text@);
        assert(done + lex(text@).0 =~= lex(text@).0);
    }
    while kind != 0 || i < n
        invariant_except_break
            n == chars@.len(),
            chars@ == text@,
            ascii == vstd::string::is_ascii(text),
            i <= n,
            kind <= 2,
            kind != 0 ==> start < i,
            lex(text@) == join(done, lex_from(chars@.skip(i as int), pending_of(chars@, kind, start as int, i as int))),
            toks@.len() == done.len(),
            forall|k: int| 0 <= k < toks@.len() ==> token_of(#[trigger] done[k], toks@[k]),
            fault is None,
        ensures
            tokenizes(text@, toks@, fault),
        decreases 2 * (n - i) + if kind != 0 { 1int } else { 0int },
    {
        let ghost rest = chars@.skip(i as int);
        if kind == 1 {
            if i < n && is_letter_char(chars[i]) {
                assert(rest.drop_first() =~= chars@.skip(i + 1));
                assert(chars@.subrange(start as int, i as int).push(chars@[i as int]) =~= chars@.subrange(start as int, i + 1));
                i = i + 1;
            } else {
                let mut w: Vec<char> = Vec::new();
                let mut k: usize = start;
                while k < i
                    invariant
                        start <= k <= i <= n,
                        n == chars@.len(),
                        w@ == chars@.subrange(start as int, k as int),
                    decreases i - k,
                {
                    w.push(chars[k]);
                    assert(chars@.subrange(start as int, k as int).push(chars@[k as int]) =~= chars@.subrange(start as int, k + 1));
                    k = k + 1;
                }
                proof {
                    done = done.push(Lexeme::Word(chars@.subrange(start as int, i as int)));
                }
                toks.push(Token::Word(w));
                kind = 0;
            }
        } else if kind == 2 {
            if i < n && continues_numeral_char(chars[i]) {
                assert(rest.drop_first() =~= chars@.skip(i + 1));
                assert(chars@.subrange(start as int, i as int).push(chars@[i as int]) =~= chars@.subrange(start as int, i + 1));
                i = i + 1;
            } else {
                let numeral: &str = if ascii {
                    text.substring_ascii(start, i)
                } else {
                    text.substring_char(start, i)
                };
                proof {
                    done = done.push(Lexeme::Numeral(chars@.subrange(start as int, i as int)));
                }
                match crate::num::parse_numeral::<T>(numeral) {
                    Some(v) => {
                        toks.push(Token::Number(v));
                        kind = 0;
                    },
                    None => {
                        fault = Some(BAD_NUMBER);
                        proof {
                            let lx = lex(text@).0;
                            assert(lx[toks@.len() as int] == done[toks@.len() as int]);
                        }
                        break;
                    },
                }
            }
        } else {
            let c = chars[i];
            assert(rest[0] == c);
            assert(rest.drop_first() =~= chars@.skip(i + 1));
            if is_space_char(c) {
                i = i + 1;
            } else if c == '(' {
                proof { done = done.push(Lexeme::ParenOpen); }
                toks.push(Token::ParenOpen);
                i = i + 1;
            } else if c == ')' {
                proof { done = done.push(Lexeme::ParenClose); }
                toks.push(Token::ParenClose);
                i = i + 1;
            } else if c == ',' {
                proof { done = done.push(Lexeme::Comma); }
                toks.push(Token::Comma);
                i = i + 1;
            } else if is_letter_char(c) {
                assert(chars@.subrange(i as int, i + 1) =~= seq![c]);
                start = i;
                kind = 1;
                i = i + 1;
            } else if starts_numeral_char(c) {
                assert(chars@.subrange(i as int, i + 1) =~= seq![c]);
                start = i;
                kind = 2;
                i = i + 1;
            } else {
                fault = Some(BAD_CHARACTER);
                break;
            }
        }
    }
    Tokens { toks, fault }
}

} // verus!
