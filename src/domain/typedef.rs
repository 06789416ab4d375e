use vstd::prelude::*;

use crate::domain::typing::{texts, words, words_spec, Type};
use crate::error::ParserError;
use crate::keyword::Token;
use crate::lexer::Lexeme;
use crate::stream::{remaining, text_at, token_at, TokenStream};
use crate::tokens::{expect, word, ParseResult};

verus! {

/// A declared type and the type it specialises.
#[derive(Debug, PartialEq, Eq, Hash)]
pub struct TypeDef {
    /// The name of the type.
    pub name: String,
    /// The parent type; `object` where none was written.
    pub parent: String,
}

impl View for TypeDef {
    type V = (Seq<char>, Seq<char>);

    open spec fn view(&self) -> (Seq<char>, Seq<char>) {
        (self.name@, self.parent@)
    }
}

pub open spec fn typedef_views(v: Seq<TypeDef>) -> Seq<(Seq<char>, Seq<char>)> {
    v.map_values(|t: TypeDef| t@)
}

/// Each of `names` with the parent `parent`.
pub open spec fn with_parent(names: Seq<Seq<char>>, parent: Seq<char>) -> Seq<
    (Seq<char>, Seq<char>),
> {
    names.map_values(|n: Seq<char>| (n, parent))
}

/// One group of type declarations at `p`: identifiers, then optionally `-` and the
/// parent's identifier; the parent is `object` where it is left out.
pub open spec fn typedef_group_spec(l: Seq<Lexeme>, p: int) -> Option<
    (int, Seq<(Seq<char>, Seq<char>)>),
> {
    let (q, names) = words_spec(l, p, Token::Id);
    if names.len() == 0 {
        None
    } else if token_at(l, q) == Some(Token::Dash) && token_at(l, q + 1) == Some(Token::Id) {
        Some((q + 2, with_parent(names, text_at(l, q + 1))))
    } else {
        Some((q, with_parent(names, "object"@)))
    }
}

/// As many groups of type declarations as follow one another from `p`.
pub open spec fn typedef_groups_spec(l: Seq<Lexeme>, p: int) -> (int, Seq<(Seq<char>, Seq<char>)>)
    decreases remaining(l, p),
{
    match typedef_group_spec(l, p) {
        Some((q, g)) => if remaining(l, q) < remaining(l, p) {
            let (r, rest) = typedef_groups_spec(l, q);
            (r, g + rest)
        } else {
            (p, seq![])
        },
        None => (p, seq![]),
    }
}

/// `(:types` groups `)` at `p`.
pub open spec fn types_spec(l: Seq<Lexeme>, p: int) -> Option<(int, Seq<(Seq<char>, Seq<char>)>)> {
    if token_at(l, p) == Some(Token::OpenParen) && token_at(l, p + 1) == Some(Token::Types) {
        let (q, ts) = typedef_groups_spec(l, p + 2);
        if token_at(l, q) == Some(Token::CloseParen) {
            Some((q + 1, ts))
        } else {
            None
        }
    } else {
        None
    }
}

/// The text of a type declaration: `name - parent`.
pub open spec fn typedef_text(t: (Seq<char>, Seq<char>)) -> Seq<char> {
    t.0 + " - "@ + t.1
}

impl TypeDef {
    fn parse_group<'a>(ts: TokenStream<'a>) -> (r: ParseResult<'a, Vec<TypeDef>>)
        ensures
            match r {
                Ok((n, v)) => n.lexemes == ts.lexemes && typedef_group_spec(ts.toks(), ts.pos as int)
                    == Some((n.pos as int, typedef_views(v@))),
                Err(_) => typedef_group_spec(ts.toks(), ts.pos as int) is None,
            },
    {
        let (n, names) = words(ts, Token::Id);
        if names.len() == 0 {
            return Err(ParserError::ExpectedIdentifier);
        }
        let (after, parent) = match expect(n, Token::Dash) {
            Ok(d) => match word(d, Token::Id) {
                Ok((m, s)) => (m, s),
                Err(_) => (n, "object".to_owned()),
            },
            Err(_) => (n, "object".to_owned()),
        };
        let mut out: Vec<TypeDef> = Vec::new();
        for j in 0..names.len()
            invariant
                typedef_views(out@) == with_parent(texts(names@.take(j as int)), parent@),
        {
            let ghost before = out@;
            let item = TypeDef { name: names[j].clone(), parent: parent.clone() };
            out.push(item);
            assert(typedef_views(out@) =~= typedef_views(before).push(item@));
            assert(texts(names@.take(j + 1)) =~= texts(names@.take(j as int)).push(
                names@[j as int]@,
            ));
            assert(with_parent(texts(names@.take(j + 1)), parent@) =~= with_parent(
                texts(names@.take(j as int)),
                parent@,
            ).push((names@[j as int]@, parent@)));
        }
        assert(names@.take(names.len() as int) =~= names@);
        Ok((after, out))
    }

    pub(crate) fn parse_groups<'a>(ts: TokenStream<'a>) -> (r: (TokenStream<'a>, Vec<TypeDef>))
        ensures
            r.0.lexemes == ts.lexemes,
            (r.0.pos as int, typedef_views(r.1@)) == typedef_groups_spec(ts.toks(), ts.pos as int),
    {
        let mut cur = ts;
        let mut out: Vec<TypeDef> = Vec::new();
        loop
            invariant
                cur.lexemes == ts.lexemes,
                ({
                    let (q, rest) = typedef_groups_spec(ts.toks(), cur.pos as int);
                    typedef_groups_spec(ts.toks(), ts.pos as int) == (q, typedef_views(out@)
                        + rest)
                }),
            decreases remaining(ts.toks(), cur.pos as int),
        {
            match TypeDef::parse_group(cur) {
                Ok((next, g)) => {
                    if next.len() >= cur.len() {
                        assert(typedef_views(out@) + seq![] =~= typedef_views(out@));
                        return (cur, out);
                    }
                    proof {
                        let (q, rest) = typedef_groups_spec(ts.toks(), next.pos as int);
                        assert(typedef_views(out@) + (typedef_views(g@) + rest) =~= typedef_views(
                            out@ + g@,
                        ) + rest);
                    }
                    let mut g = g;
                    out.append(&mut g);
                    cur = next;
                },
                Err(_) => {
                    assert(typedef_views(out@) + seq![] =~= typedef_views(out@));
                    return (cur, out);
                },
            }
        }
    }

    /// The text `name - parent`.
    pub fn to_pddl(&self) -> (r: String)
        ensures
            r@ == typedef_text(self@),
    {
        let mut r = self.name.clone();
        r.append(" - ");
        r.append(self.parent.as_str());
        r
    }
}

impl Type {
    /// Reads `(:types` groups `)`, where a group is type names followed, optionally,
    /// by `-` and their parent.
    pub fn parse_types<'a>(ts: TokenStream<'a>) -> (r: ParseResult<'a, Vec<TypeDef>>)
        ensures
            match r {
                Ok((n, v)) => n.lexemes == ts.lexemes && types_spec(ts.toks(), ts.pos as int)
                    == Some((n.pos as int, typedef_views(v@))),
                Err(_) => types_spec(ts.toks(), ts.pos as int) is None,
            },
    {
        let n = match expect(ts, Token::OpenParen) {
            Ok(n) => n,
            Err(e) => return Err(e),
        };
        let n = match expect(n, Token::Types) {
            Ok(n) => n,
            Err(e) => return Err(e),
        };
        let (n, v) = TypeDef::parse_groups(n);
        match expect(n, Token::CloseParen) {
            Ok(n) => Ok((n, v)),
            Err(e) => Err(e),
        }
    }
}

} // verus!
