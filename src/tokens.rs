use vstd::prelude::*;

use crate::error::{lex_error, ParserError};
use crate::keyword::{LexError, Token};
use crate::lexer::{text_of, Lexeme};
use crate::stream::{text_at, token_at, TokenStream};
use crate::text::chars_of;

verus! {

/// How many lexemes an `ExpectedToken` error shows of what follows.
pub const LOOKAHEAD: usize = 10;

/// What a parser returns: the cursor after what it read, and the value read.
pub type ParseResult<'a, T> = Result<(TokenStream<'a>, T), ParserError>;

/// `r` is what the grammar `s` gives at the cursor `ts`: success exactly where `s`
/// holds, with the cursor after what `s` reads and the value that `s` denotes.
pub open spec fn parsed<'a, T: View>(
    r: ParseResult<'a, T>,
    ts: TokenStream<'a>,
    s: Option<(int, T::V)>,
) -> bool {
    match r {
        Ok((n, v)) => n.lexemes == ts.lexemes && s == Some((n.pos as int, v@)),
        Err(_) => s is None,
    }
}

/// The error of a primitive that finds no fitting token at `p`: the lexical error if
/// the lexeme there is none, else `e`.
pub open spec fn failure(l: Seq<Lexeme>, p: int, r: ParserError, e: ParserError) -> bool {
    if 0 <= p < l.len() && l[p].token is Err {
        r == lex_error(l[p].token->Err_0)
    } else {
        r == e
    }
}

/// The lexical error of the lexeme at the cursor, if it is one, else `e`.
fn fail(ts: TokenStream, e: ParserError) -> (r: ParserError)
    ensures
        failure(ts.toks(), ts.pos as int, r, e),
{
    if ts.pos < ts.lexemes.len() {
        match ts.lexemes[ts.pos].token {
            Err(le) => ParserError::from_lex(le),
            Ok(_) => e,
        }
    } else {
        e
    }
}

/// The error of failing to read the token `t` at `p`: the lexical error where the
/// lexeme there is none; otherwise `ExpectedToken(t, span, lookahead)`, with the span of
/// the lexeme there and as many of the lexemes from there as `LOOKAHEAD` allows
/// (none at the end of the input).
pub open spec fn expected_at(l: Seq<Lexeme>, p: int, t: Token, e: ParserError) -> bool {
    if 0 <= p < l.len() && l[p].token is Err {
        e == lex_error(l[p].token->Err_0)
    } else {
        match e {
            ParserError::ExpectedToken(u, sp, la) => u == t && if 0 <= p < l.len() {
                sp == l[p].span && lookahead_from(l, p, la)
            } else {
                la is None
            },
            _ => false,
        }
    }
}

/// `la` holds the lexemes from `p`, as many as `LOOKAHEAD` allows, with their texts.
pub open spec fn lookahead_from(
    l: Seq<Lexeme>,
    p: int,
    la: Option<Vec<(Result<Token, LexError>, String)>>,
) -> bool {
    match la {
        Some(v) => v.len() == (if LOOKAHEAD < l.len() - p {
            LOOKAHEAD as int
        } else {
            l.len() - p
        }) && forall|k: int|
            0 <= k < v.len() ==> (#[trigger] v[k]).0 == l[p + k].token && v[k].1@ == text_at(
                l,
                p + k,
            ),
        None => false,
    }
}

/// Reads the token `t`.
pub fn expect<'a>(ts: TokenStream<'a>, t: Token) -> (r: Result<TokenStream<'a>, ParserError>)
    ensures
        match r {
            Ok(n) => token_at(ts.toks(), ts.pos as int) == Some(t) && n.lexemes == ts.lexemes && n.pos == ts.pos + 1,
            Err(e) => token_at(ts.toks(), ts.pos as int) != Some(t) && expected_at(
                ts.toks(),
                ts.pos as int,
                t,
                e,
            ),
        },
{
    if ts.pos < ts.lexemes.len() {
        match ts.lexemes[ts.pos].token {
            Ok(u) => {
                if u == t {
                    return Ok(TokenStream { lexemes: ts.lexemes, pos: ts.pos + 1 });
                }
            },
            Err(le) => {
                return Err(ParserError::from_lex(le));
            },
        }
    }
    Err(ParserError::ExpectedToken(t, ts.span(), ts.peek_n(LOOKAHEAD)))
}

/// Reads the text of a token of kind `t` (an identifier or a variable).
pub fn word<'a>(ts: TokenStream<'a>, t: Token) -> (r: ParseResult<'a, String>)
    ensures
        match r {
            Ok((n, s)) => token_at(ts.toks(), ts.pos as int) == Some(t) && n.lexemes == ts.lexemes && n.pos == ts.pos + 1
                && s@ == text_at(ts.toks(), ts.pos as int),
            Err(e) => token_at(ts.toks(), ts.pos as int) != Some(t) && failure(
                ts.toks(),
                ts.pos as int,
                e,
                ParserError::ExpectedIdentifier,
            ),
        },
{
    if ts.pos < ts.lexemes.len() {
        let l = &ts.lexemes[ts.pos];
        match l.token {
            Ok(u) => {
                if u == t {
                    return Ok((TokenStream { lexemes: ts.lexemes, pos: ts.pos + 1 }, l.text.clone()));
                }
            },
            Err(_) => {},
        }
    }
    Err(fail(ts, ParserError::ExpectedIdentifier))
}

/// Reads an identifier.
pub fn id<'a>(ts: TokenStream<'a>) -> (r: ParseResult<'a, String>)
    ensures
        match r {
            Ok((n, s)) => token_at(ts.toks(), ts.pos as int) == Some(Token::Id) && n.lexemes == ts.lexemes
                && n.pos == ts.pos + 1 && s@ == text_at(ts.toks(), ts.pos as int),
            Err(e) => token_at(ts.toks(), ts.pos as int) != Some(Token::Id) && failure(
                ts.toks(),
                ts.pos as int,
                e,
                ParserError::ExpectedIdentifier,
            ),
        },
{
    word(ts, Token::Id)
}

/// Reads a variable, `?` included.
pub fn var<'a>(ts: TokenStream<'a>) -> (r: ParseResult<'a, String>)
    ensures
        match r {
            Ok((n, s)) => token_at(ts.toks(), ts.pos as int) == Some(Token::Var) && n.lexemes == ts.lexemes
                && n.pos == ts.pos + 1 && s@ == text_at(ts.toks(), ts.pos as int),
            Err(e) => token_at(ts.toks(), ts.pos as int) != Some(Token::Var) && failure(
                ts.toks(),
                ts.pos as int,
                e,
                ParserError::ExpectedIdentifier,
            ),
        },
{
    word(ts, Token::Var)
}

/// Reads an integer.
pub fn integer<'a>(ts: TokenStream<'a>) -> (r: ParseResult<'a, i64>)
    ensures
        match r {
            Ok((n, v)) => token_at(ts.toks(), ts.pos as int) == Some(Token::Integer(v)) && n.lexemes
                == ts.lexemes && n.pos == ts.pos + 1,
            Err(e) => !(token_at(ts.toks(), ts.pos as int) matches Some(Token::Integer(_)))
                && failure(ts.toks(), ts.pos as int, e, ParserError::ExpectedInteger),
        },
{
    if ts.pos < ts.lexemes.len() {
        match ts.lexemes[ts.pos].token {
            Ok(Token::Integer(v)) => {
                return Ok((TokenStream { lexemes: ts.lexemes, pos: ts.pos + 1 }, v));
            },
            _ => {},
        }
    }
    Err(fail(ts, ParserError::ExpectedInteger))
}

/// A decimal number, kept as the digits before and after its point.
#[derive(Debug, PartialEq, Eq, Hash)]
pub struct Decimal {
    /// The digits before the point.
    pub whole: String,
    /// The digits after the point.
    pub fraction: String,
}

impl View for Decimal {
    type V = Seq<char>;

    /// The number's text: the whole part, the point, the fraction.
    open spec fn view(&self) -> Seq<char> {
        self.whole@ + seq!['.'] + self.fraction@
    }
}

impl Decimal {
    /// The number's text, such as `100.000`.
    pub fn to_pddl(&self) -> (r: String)
        ensures
            r@ == self@,
    {
        let mut r = self.whole.clone();
        proof {
            reveal_strlit(".");
        }
        r.append(".");
        r.append(self.fraction.as_str());
        r
    }
}

/// Reads a decimal number. Its text is split at its first point.
pub fn float<'a>(ts: TokenStream<'a>) -> (r: ParseResult<'a, Decimal>)
    ensures
        match r {
            Ok((n, d)) => token_at(ts.toks(), ts.pos as int) == Some(Token::Float) && n.lexemes
                == ts.lexemes && n.pos == ts.pos + 1 && d@ == text_at(ts.toks(), ts.pos as int)
                && !d.whole@.contains('.') && text_at(ts.toks(), ts.pos as int).contains('.'),
            Err(e) => !(token_at(ts.toks(), ts.pos as int) == Some(Token::Float) && text_at(
                ts.toks(),
                ts.pos as int,
            ).contains('.')) && failure(ts.toks(), ts.pos as int, e, ParserError::ExpectedFloat),
        },
{
    if ts.pos < ts.lexemes.len() {
        let l = &ts.lexemes[ts.pos];
        match l.token {
            Ok(Token::Float) => {
                let cs = chars_of(l.text.as_str());
                let mut k: usize = 0;
                while k < cs.len() && cs[k] != '.'
                    invariant
                        k <= cs.len(),
                        forall|i: int| 0 <= i < k ==> cs@[i] != '.',
                    decreases cs.len() - k,
                {
                    k += 1;
                }
                if k < cs.len() {
                    let whole = text_of(&cs, 0, k);
                    let fraction = text_of(&cs, k + 1, cs.len());
                    let d = Decimal { whole, fraction };
                    assert(d@ =~= cs@);
                    assert(cs@[k as int] == '.');
                    assert(!d.whole@.contains('.')) by {
                        assert forall|i: int| 0 <= i < d.whole@.len() implies d.whole@[i] != '.' by {
                            assert(d.whole@[i] == cs@[i]);
                        }
                    }
                    return Ok((TokenStream { lexemes: ts.lexemes, pos: ts.pos + 1 }, d));
                }
                assert(!cs@.contains('.'));
            },
            _ => {},
        }
    }
    Err(fail(ts, ParserError::ExpectedFloat))
}

} // verus!
