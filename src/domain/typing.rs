use vstd::prelude::*;

use crate::error::ParserError;
use crate::keyword::Token;
use crate::lexer::Lexeme;
use crate::stream::{remaining, text_at, token_at, TokenStream};
use crate::text::{join, join_strings};
use crate::tokens::{expect, word, ParseResult};

verus! {

/// A type: a single named type, or one of several (`(either a b)`).
#[derive(Debug, PartialEq, Eq, Hash)]
pub enum Type {
    /// A named type.
    Simple(String),
    /// Any one of the named types; never empty when parsed.
    Either(Vec<String>),
}

/// What a [`Type`] denotes.
pub enum TypeModel {
    Simple(Seq<char>),
    Either(Seq<Seq<char>>),
}

/// The texts of a sequence of strings.
pub open spec fn texts(v: Seq<String>) -> Seq<Seq<char>> {
    v.map_values(|s: String| s@)
}

impl View for Type {
    type V = TypeModel;

    open spec fn view(&self) -> TypeModel {
        match self {
            Type::Simple(s) => TypeModel::Simple(s@),
            Type::Either(v) => TypeModel::Either(texts(v@)),
        }
    }
}

/// The text of a type: its name, or `(either a b)`.
pub open spec fn type_text(t: TypeModel) -> Seq<char> {
    match t {
        TypeModel::Simple(s) => s,
        TypeModel::Either(v) => "(either "@ + join(v, " "@) + ")"@,
    }
}

/// The type that a parameter, an object or a type has when none is written.
pub open spec fn object_type() -> TypeModel {
    TypeModel::Simple("object"@)
}

/// The longest run of tokens of kind `t` (identifiers or variables) from `p`: where
/// it ends, and the texts.
pub open spec fn words_spec(l: Seq<Lexeme>, p: int, t: Token) -> (int, Seq<Seq<char>>)
    decreases remaining(l, p),
{
    if token_at(l, p) == Some(t) {
        let (q, rest) = words_spec(l, p + 1, t);
        (q, seq![text_at(l, p)] + rest)
    } else {
        (p, seq![])
    }
}

/// A type at `p`: an identifier, or `(either` identifiers `)` with at least one.
pub open spec fn type_spec(l: Seq<Lexeme>, p: int) -> Option<(int, TypeModel)> {
    if token_at(l, p) == Some(Token::Id) {
        Some((p + 1, TypeModel::Simple(text_at(l, p))))
    } else if token_at(l, p) == Some(Token::OpenParen) && token_at(l, p + 1) == Some(
        Token::Either,
    ) {
        let (q, names) = words_spec(l, p + 2, Token::Id);
        if names.len() >= 1 && token_at(l, q) == Some(Token::CloseParen) {
            Some((q + 1, TypeModel::Either(names)))
        } else {
            None
        }
    } else {
        None
    }
}

proof fn lemma_words_step(l: Seq<Lexeme>, p: int, t: Token)
    requires
        token_at(l, p) == Some(t),
    ensures
        words_spec(l, p, t) == ({
            let (q, rest) = words_spec(l, p + 1, t);
            (q, seq![text_at(l, p)] + rest)
        }),
{
}

/// Reads the longest run of tokens of kind `t` (identifiers or variables).
pub fn words<'a>(ts: TokenStream<'a>, t: Token) -> (r: (TokenStream<'a>, Vec<String>))
    ensures
        r.0.lexemes == ts.lexemes,
        (r.0.pos as int, texts(r.1@)) == words_spec(ts.toks(), ts.pos as int, t),
{
    let mut cur = ts;
    let mut out: Vec<String> = Vec::new();
    loop
        invariant
            cur.lexemes == ts.lexemes,
            ({
                let (q, rest) = words_spec(ts.toks(), cur.pos as int, t);
                words_spec(ts.toks(), ts.pos as int, t) == (q, texts(out@) + rest)
            }),
        decreases remaining(ts.toks(), cur.pos as int),
    {
        match word(cur, t) {
            Ok((next, s)) => {
                proof {
                    lemma_words_step(ts.toks(), cur.pos as int, t);
                    assert(texts(out@.push(s)) =~= texts(out@) + seq![s@]);
                    let (q, rest) = words_spec(ts.toks(), next.pos as int, t);
                    assert(texts(out@) + (seq![s@] + rest) =~= texts(out@.push(s)) + rest);
                }
                out.push(s);
                cur = next;
            },
            Err(_) => {
                assert(texts(out@) + seq![] =~= texts(out@));
                return (cur, out);
            },
        }
    }
}

impl Default for Type {
    /// The type `object`, which a name has when none is written.
    fn default() -> (r: Type)
        ensures
            r@ == object_type(),
    {
        Type::object()
    }
}

impl Type {
    /// A copy of the type.
    pub fn copy(&self) -> (r: Type)
        ensures
            r@ == self@,
    {
        match self {
            Type::Simple(s) => Type::Simple(s.clone()),
            Type::Either(v) => {
                let mut out: Vec<String> = Vec::new();
                for k in 0..v.len()
                    invariant
                        texts(out@) == texts(v@.take(k as int)),
                {
                    out.push(v[k].clone());
                    assert(texts(v@.take(k + 1)) =~= texts(v@.take(k as int)).push(v@[k as int]@));
                    assert(texts(out@) =~= texts(v@.take(k as int)).push(v@[k as int]@));
                }
                assert(v@.take(v.len() as int) =~= v@);
                Type::Either(out)
            },
        }
    }

    /// The type `object`.
    pub fn object() -> (r: Type)
        ensures
            r@ == object_type(),
    {
        Type::Simple("object".to_owned())
    }

    /// Reads a type: an identifier, or `(either` identifiers `)`.
    pub fn parse_type<'a>(ts: TokenStream<'a>) -> (r: ParseResult<'a, Type>)
        ensures
            match r {
                Ok((n, v)) => n.lexemes == ts.lexemes && type_spec(ts.toks(), ts.pos as int) == Some(
                    (n.pos as int, v@),
                ),
                Err(_) => type_spec(ts.toks(), ts.pos as int) is None,
            },
    {
        match word(ts, Token::Id) {
            Ok((n, s)) => {
                return Ok((n, Type::Simple(s)));
            },
            Err(_) => {},
        }
        let n = match expect(ts, Token::OpenParen) {
            Ok(n) => n,
            Err(e) => return Err(e),
        };
        let n = match expect(n, Token::Either) {
            Ok(n) => n,
            Err(e) => return Err(e),
        };
        let (n, names) = words(n, Token::Id);
        if names.len() == 0 {
            return Err(ParserError::ExpectedIdentifier);
        }
        match expect(n, Token::CloseParen) {
            Ok(n) => Ok((n, Type::Either(names))),
            Err(e) => Err(e),
        }
    }

    /// The text of the type: its name, or `(either a b)`.
    pub fn to_pddl(&self) -> (r: String)
        ensures
            r@ == type_text(self@),
    {
        match self {
            Type::Simple(s) => s.clone(),
            Type::Either(v) => {
                let mut r = "(either ".to_owned();
                let inner = join_strings(v, " ");
                r.append(inner.as_str());
                r.append(")");
                r
            },
        }
    }
}

} // verus!
