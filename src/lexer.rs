use vstd::prelude::*;

use crate::keyword::{keyword, keyword_of, LexError, Token};
use crate::text::push_char;

verus! {

/// A range of character positions in the input, `start` included, `end` excluded.
#[derive(Clone, Copy, Debug, PartialEq, Eq, Structural, Hash)]
pub struct Span {
    pub start: usize,
    pub end: usize,
}

/// One token of the input, or one piece of input that is not a token, with its text
/// and its place.
#[derive(Debug)]
pub struct Lexeme {
    pub token: Result<Token, LexError>,
    pub text: String,
    pub span: Span,
}

pub open spec fn is_letter(c: char) -> bool {
    ('a' <= c && c <= 'z') || ('A' <= c && c <= 'Z')
}

pub open spec fn is_digit(c: char) -> bool {
    '0' <= c && c <= '9'
}

/// A character that may follow the first letter of an identifier.
pub open spec fn is_word_char(c: char) -> bool {
    is_letter(c) || is_digit(c) || c == '_' || c == '-'
}

/// Whitespace between tokens.
pub open spec fn is_space(c: char) -> bool {
    c == ' ' || c == '\t' || c == '\n' || c == '\r' || c == '\x0C'
}

pub open spec fn lower_char(c: char) -> char {
    if 'A' <= c && c <= 'Z' {
        (((c as u32) + 32) as u8) as char
    } else {
        c
    }
}

pub open spec fn lower(w: Seq<char>) -> Seq<char> {
    w.map_values(|c: char| lower_char(c))
}

pub open spec fn all_word_chars(w: Seq<char>) -> bool {
    forall|i: int| 0 <= i < w.len() ==> is_word_char(#[trigger] w[i])
}

pub open spec fn all_digits(w: Seq<char>) -> bool {
    forall|i: int| 0 <= i < w.len() ==> is_digit(#[trigger] w[i])
}

/// An identifier: a letter followed by letters, digits, `_` or `-`.
pub open spec fn is_ident(w: Seq<char>) -> bool {
    w.len() >= 1 && is_letter(w[0]) && all_word_chars(w.drop_first())
}

/// A word that may be a keyword: an identifier, or `:` followed by one.
pub open spec fn keyword_shape(w: Seq<char>) -> bool {
    is_ident(w) || (w.len() >= 2 && w[0] == ':' && is_ident(w.drop_first()))
}

pub open spec fn is_integer_text(w: Seq<char>) -> bool {
    (w.len() >= 1 && all_digits(w)) || (w.len() >= 2 && w[0] == '-' && all_digits(
        w.drop_first(),
    ))
}

/// A decimal number: digits, a point, digits.
pub open spec fn is_float_text(w: Seq<char>) -> bool {
    exists|k: int|
        #![trigger w[k]]
        0 < k < w.len() - 1 && w[k] == '.' && all_digits(w.take(k)) && all_digits(w.skip(k + 1))
}

pub open spec fn digit_value(c: char) -> int {
    (c as int) - ('0' as int)
}

/// The number that a string of decimal digits denotes.
pub open spec fn digits_value(w: Seq<char>) -> int
    decreases w.len(),
{
    if w.len() == 0 {
        0
    } else {
        10 * digits_value(w.drop_last()) + digit_value(w.last())
    }
}

/// The number that an integer literal denotes.
pub open spec fn integer_value(w: Seq<char>) -> int {
    if w.len() >= 1 && w[0] == '-' {
        -digits_value(w.drop_first())
    } else {
        digits_value(w)
    }
}

/// The token of a one-character punctuation mark.
pub open spec fn punctuation(c: char) -> Option<Token> {
    if c == '(' {
        Some(Token::OpenParen)
    } else if c == ')' {
        Some(Token::CloseParen)
    } else if c == '[' {
        Some(Token::OpenBracket)
    } else if c == ']' {
        Some(Token::CloseBracket)
    } else if c == ':' {
        Some(Token::Colon)
    } else if c == '+' {
        Some(Token::Plus)
    } else if c == '*' {
        Some(Token::Times)
    } else if c == '/' {
        Some(Token::Divide)
    } else if c == '=' {
        Some(Token::Equal)
    } else if c == '-' {
        Some(Token::Dash)
    } else {
        None
    }
}

/// What a piece of text is as a single token.
pub open spec fn classify(w: Seq<char>) -> Result<Token, LexError> {
    if w.len() == 1 && punctuation(w[0]) is Some {
        Ok(punctuation(w[0])->0)
    } else if keyword_shape(w) && keyword(lower(w)) is Some {
        Ok(keyword(lower(w))->0)
    } else if is_ident(w) {
        Ok(Token::Id)
    } else if w.len() >= 2 && w[0] == '?' && is_ident(w.drop_first()) {
        Ok(Token::Var)
    } else if is_integer_text(w) {
        if i64::MIN <= integer_value(w) <= i64::MAX {
            Ok(Token::Integer(integer_value(w) as i64))
        } else {
            Err(LexError::IntegerOutOfRange)
        }
    } else if is_float_text(w) {
        Ok(Token::Float)
    } else {
        Err(LexError::Unrecognized)
    }
}

/// A lexeme taken from `src`: its text is the characters of its span, and its token is
/// what that text is.
pub open spec fn lexeme_of(l: Lexeme, src: Seq<char>) -> bool {
    &&& l.span.start < l.span.end <= src.len()
    &&& l.text@ == src.subrange(l.span.start as int, l.span.end as int)
    &&& l.token == classify(l.text@)
}

/// A text that goes on as long as identifier characters follow: one that starts with
/// a letter, or `?` or `:` and more.
pub open spec fn word_like(w: Seq<char>) -> bool {
    (w.len() >= 1 && is_letter(w[0])) || (w.len() >= 2 && (w[0] == '?' || w[0] == ':'))
}

/// The lexeme from `start` to `end` is as long as it can be: a word is not followed by
/// an identifier character, and a lexeme that ends in a digit is not followed by one.
pub open spec fn maximal(src: Seq<char>, start: int, end: int) -> bool {
    end < src.len() ==> (word_like(src.subrange(start, end)) ==> !is_word_char(src[end])) && (
    is_digit(src[end - 1]) ==> !is_digit(src[end]))
}

/// Lexemes taken from `src`, in order and without overlap.
pub open spec fn lexemes_of(ls: Seq<Lexeme>, src: Seq<char>) -> bool {
    &&& forall|k: int| 0 <= k < ls.len() ==> lexeme_of(#[trigger] ls[k], src)
    &&& forall|k: int| 0 <= k < ls.len() - 1 ==> (#[trigger] ls[k]).span.end <= ls[k + 1].span.start
    &&& forall|k: int|
        0 <= k < ls.len() ==> maximal(src, (#[trigger] ls[k]).span.start as int, ls[k].span.end as int)
}


/// Where the run of identifier characters from `i` ends.
pub open spec fn word_end(s: Seq<char>, i: int) -> int
    decreases s.len() - i,
{
    if 0 <= i < s.len() && is_word_char(s[i]) {
        word_end(s, i + 1)
    } else {
        i
    }
}

/// Where the run of digits from `i` ends.
pub open spec fn digits_end(s: Seq<char>, i: int) -> int
    decreases s.len() - i,
{
    if 0 <= i < s.len() && is_digit(s[i]) {
        digits_end(s, i + 1)
    } else {
        i
    }
}

/// Where the run of whitespace from `i` ends.
pub open spec fn spaces_end(s: Seq<char>, i: int) -> int
    decreases s.len() - i,
{
    if 0 <= i < s.len() && is_space(s[i]) {
        spaces_end(s, i + 1)
    } else {
        i
    }
}

/// Where the line from `i` ends: at the next line break, which is not part of it.
pub open spec fn line_end(s: Seq<char>, i: int) -> int
    decreases s.len() - i,
{
    if 0 <= i < s.len() && s[i] != '\n' {
        line_end(s, i + 1)
    } else {
        i
    }
}

/// Where the text from `i` up to the next `"` ends.
pub open spec fn quote_end(s: Seq<char>, i: int) -> int
    decreases s.len() - i,
{
    if 0 <= i < s.len() && s[i] != '"' {
        quote_end(s, i + 1)
    } else {
        i
    }
}

/// Where the run of characters other than whitespace and `)` from `i` ends.
pub open spec fn name_end(s: Seq<char>, i: int) -> int
    decreases s.len() - i,
{
    if 0 <= i < s.len() && s[i] != ')' && !is_space(s[i]) {
        name_end(s, i + 1)
    } else {
        i
    }
}

/// Where the token that starts at `i` ends: the longest token there. A word is taken
/// whole; `:` with a word after it only where that is a keyword, and `?` only with an
/// identifier after it; `-` only before digits; digits with a point and digits after
/// them as one decimal number. Any other character stands alone.
pub open spec fn token_end(s: Seq<char>, i: int) -> int {
    let c = s[i];
    if is_letter(c) {
        word_end(s, i + 1)
    } else if c == ':' {
        let j = word_end(s, i + 1);
        if j > i + 1 && is_letter(s[i + 1]) && keyword(lower(s.subrange(i, j))) is Some {
            j
        } else {
            i + 1
        }
    } else if c == '?' {
        if i + 1 < s.len() && is_letter(s[i + 1]) {
            word_end(s, i + 2)
        } else {
            i + 1
        }
    } else if is_digit(c) {
        let j = digits_end(s, i);
        if j + 1 < s.len() && s[j] == '.' && is_digit(s[j + 1]) {
            digits_end(s, j + 1)
        } else {
            j
        }
    } else if c == '-' && i + 1 < s.len() && is_digit(s[i + 1]) {
        digits_end(s, i + 1)
    } else {
        i + 1
    }
}

/// Where a package directive `(in-package name)` that starts at `i` ends, if one does:
/// `(`, spaces, `in-package`, at least one space, a name that is a quoted string or a
/// run of characters other than spaces and `)`, and the first `)` after it.
pub open spec fn package_end_spec(s: Seq<char>, i: int) -> Option<int> {
    if !(0 <= i < s.len() && s[i] == '(') {
        None
    } else {
        let k0 = spaces_end(s, i + 1);
        if !(k0 + 10 <= s.len() && s.subrange(k0, k0 + 10) == "in-package"@) {
            None
        } else {
            let st = k0 + 10;
            let k = spaces_end(s, st);
            if k == st || k >= s.len() {
                None
            } else if s[k] == '"' {
                let q = quote_end(s, k + 1);
                if q + 1 < s.len() && s[q + 1] == ')' {
                    Some(q + 2)
                } else {
                    None
                }
            } else {
                let e = name_end(s, k);
                if e < s.len() && s[e] == ')' {
                    Some(e + 1)
                } else {
                    None
                }
            }
        }
    }
}

/// The lexemes of `s` from `i`, left to right, each as its start, its end and its
/// token: whitespace, comments (from `;` to the end of the line) and package directives
/// are skipped, and elsewhere the longest token is taken. A character that begins no
/// token is a lexeme of its own with an error for its token.
pub open spec fn lex_spec(s: Seq<char>, i: int) -> Seq<(int, int, Result<Token, LexError>)>
    decreases s.len() - i,
{
    if !(0 <= i < s.len()) {
        seq![]
    } else if is_space(s[i]) {
        lex_spec(s, i + 1)
    } else if s[i] == ';' {
        let e = line_end(s, i + 1);
        if i < e <= s.len() {
            lex_spec(s, e)
        } else {
            seq![]
        }
    } else if package_end_spec(s, i) is Some {
        let e = package_end_spec(s, i)->0;
        if i < e <= s.len() {
            lex_spec(s, e)
        } else {
            seq![]
        }
    } else {
        let j = token_end(s, i);
        if i < j <= s.len() {
            seq![(i, j, classify(s.subrange(i, j)))] + lex_spec(s, j)
        } else {
            seq![]
        }
    }
}

/// A lexeme as its start, its end and its token.
pub open spec fn lexeme_view(l: Lexeme) -> (int, int, Result<Token, LexError>) {
    (l.span.start as int, l.span.end as int, l.token)
}

pub open spec fn lexeme_views(ls: Seq<Lexeme>) -> Seq<(int, int, Result<Token, LexError>)> {
    ls.map_values(|l: Lexeme| lexeme_view(l))
}

fn letter(c: char) -> (b: bool)
    ensures
        b == is_letter(c),
{
    ('a' <= c && c <= 'z') || ('A' <= c && c <= 'Z')
}

fn digit(c: char) -> (b: bool)
    ensures
        b == is_digit(c),
{
    '0' <= c && c <= '9'
}

fn word_char(c: char) -> (b: bool)
    ensures
        b == is_word_char(c),
{
    letter(c) || digit(c) || c == '_' || c == '-'
}

fn space(c: char) -> (b: bool)
    ensures
        b == is_space(c),
{
    c == ' ' || c == '\t' || c == '\n' || c == '\r' || c == '\x0C'
}

fn to_lower(c: char) -> (r: char)
    ensures
        r == lower_char(c),
{
    if 'A' <= c && c <= 'Z' {
        (((c as u32) + 32) as u8) as char
    } else {
        c
    }
}

/// The end of the run of identifier characters that starts at `i`.
fn scan_word(chars: &Vec<char>, i: usize) -> (j: usize)
    requires
        i <= chars.len(),
    ensures
        i <= j <= chars.len(),
        all_word_chars(chars@.subrange(i as int, j as int)),
        j == chars.len() || !is_word_char(chars@[j as int]),
        j == word_end(chars@, i as int),
{
    let mut j = i;
    while j < chars.len() && word_char(chars[j])
        invariant
            i <= j <= chars.len(),
            all_word_chars(chars@.subrange(i as int, j as int)),
            word_end(chars@, i as int) == word_end(chars@, j as int),
        decreases chars.len() - j,
    {
        j += 1;
    }
    j
}

/// The end of the run of digits that starts at `i`.
fn scan_digits(chars: &Vec<char>, i: usize) -> (j: usize)
    requires
        i <= chars.len(),
    ensures
        i <= j <= chars.len(),
        all_digits(chars@.subrange(i as int, j as int)),
        j == chars.len() || !is_digit(chars@[j as int]),
        j == digits_end(chars@, i as int),
{
    let mut j = i;
    while j < chars.len() && digit(chars[j])
        invariant
            i <= j <= chars.len(),
            all_digits(chars@.subrange(i as int, j as int)),
            digits_end(chars@, i as int) == digits_end(chars@, j as int),
        decreases chars.len() - j,
    {
        j += 1;
    }
    j
}

/// The characters from `i` to `j` as a string.
pub(crate) fn text_of(chars: &Vec<char>, i: usize, j: usize) -> (s: String)
    requires
        i <= j <= chars.len(),
    ensures
        s@ == chars@.subrange(i as int, j as int),
{
    let mut s = String::new();
    let mut k = i;
    while k < j
        invariant
            i <= k <= j <= chars.len(),
            s@ == chars@.subrange(i as int, k as int),
        decreases j - k,
    {
        push_char(&mut s, chars[k]);
        assert(chars@.subrange(i as int, k + 1) =~= chars@.subrange(i as int, k as int).push(
            chars@[k as int],
        ));
        k += 1;
    }
    s
}

/// The characters from `i` to `j`, in lower case.
fn lower_text_of(chars: &Vec<char>, i: usize, j: usize) -> (s: String)
    requires
        i <= j <= chars.len(),
    ensures
        s@ == lower(chars@.subrange(i as int, j as int)),
{
    let mut s = String::new();
    let mut k = i;
    while k < j
        invariant
            i <= k <= j <= chars.len(),
            s@ == lower(chars@.subrange(i as int, k as int)),
        decreases j - k,
    {
        push_char(&mut s, to_lower(chars[k]));
        assert(lower(chars@.subrange(i as int, k + 1)) =~= lower(
            chars@.subrange(i as int, k as int),
        ).push(lower_char(chars@[k as int])));
        k += 1;
    }
    s
}

proof fn lemma_digits_value_nonneg(w: Seq<char>)
    requires
        all_digits(w),
    ensures
        digits_value(w) >= 0,
    decreases w.len(),
{
    if w.len() > 0 {
        assert(all_digits(w.drop_last()));
        lemma_digits_value_nonneg(w.drop_last());
        assert(is_digit(w[w.len() - 1]));
    }
}

/// The integer token of the digits from `d` to `j`, negated when `neg` holds.
fn integer_token(chars: &Vec<char>, d: usize, j: usize, neg: bool) -> (r: Result<Token, LexError>)
    requires
        d < j <= chars.len(),
        all_digits(chars@.subrange(d as int, j as int)),
    ensures
        ({
            let v = if neg {
                -digits_value(chars@.subrange(d as int, j as int))
            } else {
                digits_value(chars@.subrange(d as int, j as int))
            };
            r == if i64::MIN <= v <= i64::MAX {
                Ok::<Token, LexError>(Token::Integer(v as i64))
            } else {
                Err::<Token, LexError>(LexError::IntegerOutOfRange)
            }
        }),
{
    let limit: u64 = if neg {
        0x8000_0000_0000_0000
    } else {
        0x7fff_ffff_ffff_ffff
    };
    let mut mag: u64 = 0;
    let mut over = false;
    let mut k = d;
    while k < j
        invariant
            d <= k <= j <= chars.len(),
            all_digits(chars@.subrange(d as int, j as int)),
            limit == if neg { 0x8000_0000_0000_0000u64 } else { 0x7fff_ffff_ffff_ffffu64 },
            !over ==> mag == digits_value(chars@.subrange(d as int, k as int)) && mag <= limit,
            over ==> digits_value(chars@.subrange(d as int, k as int)) > limit,
        decreases j - k,
    {
        let ghost prev = chars@.subrange(d as int, k as int);
        let ghost next = chars@.subrange(d as int, k + 1);
        assert(next.drop_last() =~= prev);
        assert(next.last() == chars@[k as int]);
        assert(is_digit(chars@.subrange(d as int, j as int)[k - d]));
        let dv = (chars[k] as u32 - '0' as u32) as u64;
        assert(dv == digit_value(chars@[k as int]));
        assert(digits_value(next) == 10 * digits_value(prev) + dv);
        if over {
            proof {
                assert(all_digits(prev));
                lemma_digits_value_nonneg(prev);
            }
        } else if mag > (limit - dv) / 10 {
            assert(10 * mag + dv > limit) by (nonlinear_arith)
                requires
                    mag > (limit - dv) / 10,
                    dv <= 9,
                    limit >= 9,
            ;
            over = true;
        } else {
            assert(10 * mag + dv <= limit) by (nonlinear_arith)
                requires
                    mag <= (limit - dv) / 10,
                    dv <= 9,
                    limit >= 9,
            ;
            mag = mag * 10 + dv;
        }
        k += 1;
    }
    if over {
        Err(LexError::IntegerOutOfRange)
    } else if neg {
        if mag == 0x8000_0000_0000_0000 {
            Ok(Token::Integer(i64::MIN))
        } else {
            Ok(Token::Integer(-(mag as i64)))
        }
    } else {
        Ok(Token::Integer(mag as i64))
    }
}

/// The token that starts at `i`, and where it ends. A word is taken whole; a `:`
/// that does not begin a keyword, and a `-` that does not begin an integer, stand
/// alone.
fn scan_token(chars: &Vec<char>, i: usize) -> (r: (Result<Token, LexError>, usize))
    requires
        i < chars.len(),
    ensures
        i < r.1 <= chars.len(),
        r.0 == classify(chars@.subrange(i as int, r.1 as int)),
        maximal(chars@, i as int, r.1 as int),
        r.1 == token_end(chars@, i as int),
{
    let c = chars[i];
    if letter(c) {
        let j = scan_word(chars, i + 1);
        let ghost w = chars@.subrange(i as int, j as int);
        assert(w.drop_first() =~= chars@.subrange(i + 1, j as int));
        assert(is_ident(w));
        let lw = lower_text_of(chars, i, j);
        match keyword_of(&lw) {
            Some(t) => (Ok(t), j),
            None => (Ok(Token::Id), j),
        }
    } else if c == ':' {
        let j = scan_word(chars, i + 1);
        if j > i + 1 && letter(chars[i + 1]) {
            let ghost w = chars@.subrange(i as int, j as int);
            assert(w.drop_first() =~= chars@.subrange(i + 1, j as int));
            assert(w.drop_first().drop_first() =~= chars@.subrange(i + 2, j as int));
            assert(is_ident(w.drop_first()));
            let lw = lower_text_of(chars, i, j);
            match keyword_of(&lw) {
                Some(t) => {
                    return (Ok(t), j);
                },
                None => {},
            }
        }
        (Ok(Token::Colon), i + 1)
    } else if c == '?' {
        if i + 1 < chars.len() && letter(chars[i + 1]) {
            let j = scan_word(chars, i + 2);
            let ghost w = chars@.subrange(i as int, j as int);
            assert(w.drop_first() =~= chars@.subrange(i + 1, j as int));
            assert(w.drop_first().drop_first() =~= chars@.subrange(i + 2, j as int));
            assert(!is_digit(w[0]));
            (Ok(Token::Var), j)
        } else {
            let ghost w = chars@.subrange(i as int, i + 1);
            assert(!is_digit(w[0]));
            (Err(LexError::Unrecognized), i + 1)
        }
    } else if digit(c) {
        let j = scan_digits(chars, i);
        if chars.len() - j > 1 && chars[j] == '.' && digit(chars[j + 1]) {
            let k = scan_digits(chars, j + 1);
            let ghost w = chars@.subrange(i as int, k as int);
            assert(w.take(j - i) =~= chars@.subrange(i as int, j as int));
            assert(w.skip(j - i + 1) =~= chars@.subrange(j + 1, k as int));
            assert(w[j - i] == '.');
            assert(!is_digit(w[j - i]));
            assert(is_float_text(w));
            (Ok(Token::Float), k)
        } else {
            let ghost w = chars@.subrange(i as int, j as int);
            assert(is_integer_text(w));
            (integer_token(chars, i, j, false), j)
        }
    } else if c == '-' && i + 1 < chars.len() && digit(chars[i + 1]) {
        let j = scan_digits(chars, i + 1);
        let ghost w = chars@.subrange(i as int, j as int);
        assert(w.drop_first() =~= chars@.subrange(i + 1, j as int));
        assert(is_integer_text(w));
        (integer_token(chars, i + 1, j, true), j)
    } else {
        let ghost w = chars@.subrange(i as int, i + 1);
        assert(w[0] == c);
        let t = if c == '(' {
            Ok(Token::OpenParen)
        } else if c == ')' {
            Ok(Token::CloseParen)
        } else if c == '[' {
            Ok(Token::OpenBracket)
        } else if c == ']' {
            Ok(Token::CloseBracket)
        } else if c == '+' {
            Ok(Token::Plus)
        } else if c == '*' {
            Ok(Token::Times)
        } else if c == '/' {
            Ok(Token::Divide)
        } else if c == '=' {
            Ok(Token::Equal)
        } else if c == '-' {
            Ok(Token::Dash)
        } else {
            assert(!is_digit(w[0]));
            Err(LexError::Unrecognized)
        };
        (t, i + 1)
    }
}

/// Whether the characters of `w` stand in `chars` from `k` on.
fn matches_at(chars: &Vec<char>, k: usize, w: &str) -> (b: bool)
    ensures
        b == (k + w@.len() <= chars.len() && chars@.subrange(k as int, k + w@.len()) == w@),
{
    let wc = crate::text::chars_of(w);
    if wc.len() > chars.len() || k > chars.len() - wc.len() {
        return false;
    }
    let mut n: usize = 0;
    while n < wc.len()
        invariant
            n <= wc.len(),
            wc@ == w@,
            k + wc.len() <= chars.len(),
            chars@.subrange(k as int, k + n) == wc@.take(n as int),
        decreases wc.len() - n,
    {
        if chars[k + n] != wc[n] {
            assert(chars@.subrange(k as int, k + wc.len())[n as int] != wc@[n as int]);
            return false;
        }
        assert(chars@.subrange(k as int, k + n + 1) =~= chars@.subrange(k as int, k + n).push(
            chars@[k + n],
        ));
        assert(wc@.take(n + 1) =~= wc@.take(n as int).push(wc@[n as int]));
        n += 1;
    }
    assert(wc@.take(wc.len() as int) =~= wc@);
    true
}

/// Where a package directive `(in-package name)` that starts at `i` ends, if one does.
fn package_end(chars: &Vec<char>, i: usize) -> (r: Option<usize>)
    requires
        i < chars.len(),
    ensures
        r is Some <==> package_end_spec(chars@, i as int) is Some,
        r matches Some(e) ==> package_end_spec(chars@, i as int) == Some(e as int),
        r matches Some(e) ==> i < e <= chars.len(),
{
    if chars[i] != '(' {
        return None;
    }
    let mut k = i + 1;
    while k < chars.len() && space(chars[k])
        invariant
            i < k <= chars.len(),
            spaces_end(chars@, i + 1) == spaces_end(chars@, k as int),
        decreases chars.len() - k,
    {
        k += 1;
    }
    let k0 = k;
    proof {
        reveal_strlit("in-package");
    }
    if !matches_at(chars, k0, "in-package") {
        return None;
    }
    assert("in-package"@.len() == 10);
    k = k0 + 10;
    let start = k;
    while k < chars.len() && space(chars[k])
        invariant
            i < k0 && k0 + 10 == start <= k <= chars.len(),
            spaces_end(chars@, start as int) == spaces_end(chars@, k as int),
        decreases chars.len() - k,
    {
        k += 1;
    }
    if k == start || k >= chars.len() {
        return None;
    }
    if chars[k] == '"' {
        let k1 = k + 1;
        k = k1;
        while k < chars.len() && chars[k] != '"'
            invariant
                start < k1 <= k <= chars.len(),
                quote_end(chars@, k1 as int) == quote_end(chars@, k as int),
            decreases chars.len() - k,
        {
            k += 1;
        }
        if k >= chars.len() - 1 || chars[k + 1] != ')' {
            return None;
        }
        Some(k + 2)
    } else {
        let k1 = k;
        while k < chars.len() && chars[k] != ')' && !space(chars[k])
            invariant
                start < k1 <= k <= chars.len(),
                name_end(chars@, k1 as int) == name_end(chars@, k as int),
            decreases chars.len() - k,
        {
            k += 1;
        }
        if k < chars.len() && chars[k] == ')' {
            Some(k + 1)
        } else {
            None
        }
    }
}

proof fn lemma_push_lexeme(ls: Seq<Lexeme>, l: Lexeme, src: Seq<char>)
    requires
        lexemes_of(ls, src),
        lexeme_of(l, src),
        maximal(src, l.span.start as int, l.span.end as int),
        ls.len() > 0 ==> ls.last().span.end <= l.span.start,
    ensures
        lexemes_of(ls.push(l), src),
{
    let n = ls.push(l);
    assert forall|k: int| 0 <= k < n.len() implies lexeme_of(#[trigger] n[k], src) by {
        if k < ls.len() {
            assert(n[k] == ls[k]);
        }
    }
    assert forall|k: int| 0 <= k < n.len() implies maximal(
        src,
        (#[trigger] n[k]).span.start as int,
        n[k].span.end as int,
    ) by {
        if k < ls.len() {
            assert(n[k] == ls[k]);
        }
    }
    assert forall|k: int| 0 <= k < n.len() - 1 implies (#[trigger] n[k]).span.end <= n[k
        + 1].span.start by {
        assert(n[k] == ls[k]);
        if k + 1 < ls.len() {
            assert(n[k + 1] == ls[k + 1]);
        }
    }
}

/// Splits `chars` into lexemes, left to right, as `lex_spec` says. Whitespace,
/// comments (from `;` to the end of the line) and package directives are skipped. A
/// character that begins no token becomes a lexeme of its own whose token is an error;
/// lexing goes on after it.
#[verifier::rlimit(60)]
pub fn tokenize(chars: &Vec<char>) -> (r: Vec<Lexeme>)
    ensures
        lexeme_views(r@) == lex_spec(chars@, 0),
        lexemes_of(r@, chars@),
{
    let mut out: Vec<Lexeme> = Vec::new();
    let mut i: usize = 0;
    while i < chars.len()
        invariant
            i <= chars.len(),
            lexemes_of(out@, chars@),
            out.len() > 0 ==> out@.last().span.end <= i,
            lex_spec(chars@, 0) == lexeme_views(out@) + lex_spec(chars@, i as int),
        decreases chars.len() - i,
    {
        let c = chars[i];
        if space(c) {
            assert(lex_spec(chars@, i as int) == lex_spec(chars@, i + 1));
            i += 1;
        } else if c == ';' {
            let ghost i0 = i as int;
            i += 1;
            while i < chars.len() && chars[i] != '\n'
                invariant
                    0 <= i0 < i <= chars.len(),
                    chars@[i0] == ';',
                    line_end(chars@, i0 + 1) == line_end(chars@, i as int),
                    lexemes_of(out@, chars@),
                    out.len() > 0 ==> out@.last().span.end <= i,
                    lex_spec(chars@, 0) == lexeme_views(out@) + lex_spec(chars@, i0),
                decreases chars.len() - i,
            {
                i += 1;
            }
            assert(line_end(chars@, i as int) == i);
            assert(lex_spec(chars@, i0) == lex_spec(chars@, i as int));
        } else {
            match package_end(chars, i) {
                Some(e) => {
                    assert(package_end_spec(chars@, i as int) == Some(e as int));
                    assert(lex_spec(chars@, i as int) == lex_spec(chars@, e as int));
                    i = e;
                },
                None => {
                    let (token, j) = scan_token(chars, i);
                    let text = text_of(chars, i, j);
                    let lexeme = Lexeme { token, text, span: Span { start: i, end: j } };
                    proof {
                        assert(package_end_spec(chars@, i as int) is None);
                        assert(lex_spec(chars@, i as int) == seq![lexeme_view(lexeme)] + lex_spec(
                            chars@,
                            j as int,
                        ));
                        lemma_push_lexeme(out@, lexeme, chars@);
                        let ghost rest = lex_spec(chars@, j as int);
                        assert(lexeme_views(out@.push(lexeme)) =~= lexeme_views(out@).push(
                            lexeme_view(lexeme),
                        ));
                        assert(lexeme_views(out@) + (seq![lexeme_view(lexeme)] + rest)
                            =~= lexeme_views(out@.push(lexeme)) + rest);
                    }
                    out.push(lexeme);
                    i = j;
                },
            }
        }
    }
    assert(lexeme_views(out@) + seq![] =~= lexeme_views(out@));
    out
}

} // verus!

verus! {

/// The lexemes of `text`.
pub fn lex(text: &str) -> (r: Vec<Lexeme>)
    ensures
        lexeme_views(r@) == lex_spec(text@, 0),
        lexemes_of(r@, text@),
{
    let chars = crate::text::chars_of(text);
    tokenize(&chars)
}

} // verus!
