use vstd::prelude::*;

use crate::domain::typed_parameter::{
    groups_spec, typed_list_text, typed_views, TypedModel, TypedParameter,
};
use crate::keyword::Token;
use crate::lexer::Lexeme;
use crate::stream::{remaining, text_at, token_at, TokenStream};
use crate::text::join;
use crate::tokens::{expect, id, ParseResult};

verus! {

/// A predicate or a function with typed parameters.
#[derive(Debug, PartialEq, Eq, Hash)]
pub struct TypedPredicate {
    /// The name.
    pub name: String,
    /// The parameters.
    pub parameters: Vec<TypedParameter>,
}

/// What a [`TypedPredicate`] denotes: the name and the parameters.
pub type SignatureModel = (Seq<char>, Seq<TypedModel>);

impl View for TypedPredicate {
    type V = SignatureModel;

    open spec fn view(&self) -> SignatureModel {
        (self.name@, typed_views(self.parameters@))
    }
}

pub open spec fn signature_views(v: Seq<TypedPredicate>) -> Seq<SignatureModel> {
    v.map_values(|p: TypedPredicate| p@)
}

/// `(name parameters)` at `p`.
pub open spec fn signature_spec(l: Seq<Lexeme>, p: int) -> Option<(int, SignatureModel)> {
    if token_at(l, p) == Some(Token::OpenParen) && token_at(l, p + 1) == Some(Token::Id) {
        let (q, ps) = groups_spec(l, p + 2, Token::Var, false);
        if token_at(l, q) == Some(Token::CloseParen) {
            Some((q + 1, (text_at(l, p + 1), ps)))
        } else {
            None
        }
    } else {
        None
    }
}

/// As many signatures as follow one another from `p`.
pub open spec fn signatures_spec(l: Seq<Lexeme>, p: int) -> (int, Seq<SignatureModel>)
    decreases remaining(l, p),
{
    match signature_spec(l, p) {
        Some((q, s)) => if remaining(l, q) < remaining(l, p) {
            let (r, rest) = signatures_spec(l, q);
            (r, seq![s] + rest)
        } else {
            (p, seq![])
        },
        None => (p, seq![]),
    }
}

/// `(kw` signatures `)` at `p`, for `kw` `:predicates` or `:functions`.
pub open spec fn signature_block_spec(l: Seq<Lexeme>, p: int, kw: Token) -> Option<
    (int, Seq<SignatureModel>),
> {
    if token_at(l, p) == Some(Token::OpenParen) && token_at(l, p + 1) == Some(kw) {
        let (q, v) = signatures_spec(l, p + 2);
        if token_at(l, q) == Some(Token::CloseParen) {
            Some((q + 1, v))
        } else {
            None
        }
    } else {
        None
    }
}

/// The functions block at `p`, which may be left out: then there are none.
pub open spec fn functions_spec(l: Seq<Lexeme>, p: int) -> (int, Seq<SignatureModel>) {
    match signature_block_spec(l, p, Token::Functions) {
        Some(x) => x,
        None => (p, seq![]),
    }
}

/// The text of a signature: `(name parameters)`.
pub open spec fn signature_text(s: SignatureModel) -> Seq<char> {
    if s.1.len() == 0 {
        "("@ + s.0 + ")"@
    } else {
        "("@ + s.0 + " "@ + typed_list_text(s.1) + ")"@
    }
}

/// The texts of signatures, one per line.
pub open spec fn signatures_text(v: Seq<SignatureModel>) -> Seq<char> {
    join(v.map_values(|s: SignatureModel| signature_text(s)), "\n"@)
}

impl TypedPredicate {
    fn parse_signature<'a>(ts: TokenStream<'a>) -> (r: ParseResult<'a, TypedPredicate>)
        ensures
            match r {
                Ok((n, v)) => n.lexemes == ts.lexemes && signature_spec(ts.toks(), ts.pos as int)
                    == Some((n.pos as int, v@)),
                Err(_) => signature_spec(ts.toks(), ts.pos as int) is None,
            },
    {
        let n = match expect(ts, Token::OpenParen) {
            Ok(n) => n,
            Err(e) => return Err(e),
        };
        let (n, name) = match id(n) {
            Ok(x) => x,
            Err(e) => return Err(e),
        };
        let (n, parameters) = TypedParameter::parse_groups(n, Token::Var, false);
        match expect(n, Token::CloseParen) {
            Ok(n) => Ok((n, TypedPredicate { name, parameters })),
            Err(e) => Err(e),
        }
    }

    fn parse_signatures<'a>(ts: TokenStream<'a>) -> (r: (TokenStream<'a>, Vec<TypedPredicate>))
        ensures
            r.0.lexemes == ts.lexemes,
            (r.0.pos as int, signature_views(r.1@)) == signatures_spec(ts.toks(), ts.pos as int),
    {
        let mut cur = ts;
        let mut out: Vec<TypedPredicate> = Vec::new();
        loop
            invariant
                cur.lexemes == ts.lexemes,
                ({
                    let (q, rest) = signatures_spec(ts.toks(), cur.pos as int);
                    signatures_spec(ts.toks(), ts.pos as int) == (q, signature_views(out@) + rest)
                }),
            decreases remaining(ts.toks(), cur.pos as int),
        {
            match TypedPredicate::parse_signature(cur) {
                Ok((next, s)) => {
                    if next.len() >= cur.len() {
                        assert(signature_views(out@) + seq![] =~= signature_views(out@));
                        return (cur, out);
                    }
                    let ghost before = out@;
                    let ghost sm = s@;
                    out.push(s);
                    proof {
                        assert(signature_views(out@) =~= signature_views(before).push(sm));
                        let (q, rest) = signatures_spec(ts.toks(), next.pos as int);
                        assert(signature_views(before) + (seq![sm] + rest) =~= signature_views(
                            out@,
                        ) + rest);
                    }
                    cur = next;
                },
                Err(_) => {
                    assert(signature_views(out@) + seq![] =~= signature_views(out@));
                    return (cur, out);
                },
            }
        }
    }

    /// Reads `(kw` signatures `)`.
    fn parse_block<'a>(ts: TokenStream<'a>, kw: Token) -> (r: ParseResult<'a, Vec<TypedPredicate>>)
        ensures
            match r {
                Ok((n, v)) => n.lexemes == ts.lexemes && signature_block_spec(
                    ts.toks(),
                    ts.pos as int,
                    kw,
                ) == Some((n.pos as int, signature_views(v@))),
                Err(_) => signature_block_spec(ts.toks(), ts.pos as int, kw) is None,
            },
    {
        let n = match expect(ts, Token::OpenParen) {
            Ok(n) => n,
            Err(e) => return Err(e),
        };
        let n = match expect(n, kw) {
            Ok(n) => n,
            Err(e) => return Err(e),
        };
        let (n, v) = TypedPredicate::parse_signatures(n);
        match expect(n, Token::CloseParen) {
            Ok(n) => Ok((n, v)),
            Err(e) => Err(e),
        }
    }

    /// Reads `(:predicates (name parameters) ...)`.
    pub fn parse_predicates<'a>(ts: TokenStream<'a>) -> (r: ParseResult<'a, Vec<TypedPredicate>>)
        ensures
            match r {
                Ok((n, v)) => n.lexemes == ts.lexemes && signature_block_spec(
                    ts.toks(),
                    ts.pos as int,
                    Token::Predicates,
                ) == Some((n.pos as int, signature_views(v@))),
                Err(_) => signature_block_spec(ts.toks(), ts.pos as int, Token::Predicates) is None,
            },
    {
        TypedPredicate::parse_block(ts, Token::Predicates)
    }

    /// Reads `(:functions (name parameters) ...)`, which may be left out: then there are
    /// no functions and nothing is read.
    pub fn parse_functions<'a>(ts: TokenStream<'a>) -> (r: ParseResult<'a, Vec<TypedPredicate>>)
        ensures
            r matches Ok((n, v)) && n.lexemes == ts.lexemes && (n.pos as int, signature_views(v@))
                == functions_spec(ts.toks(), ts.pos as int),
    {
        match TypedPredicate::parse_block(ts, Token::Functions) {
            Ok(x) => Ok(x),
            Err(_) => {
                let v: Vec<TypedPredicate> = Vec::new();
                assert(signature_views(v@) =~= seq![]);
                Ok((ts, v))
            },
        }
    }

    /// The text `(name parameters)`.
    pub fn to_pddl(&self) -> (r: String)
        ensures
            r@ == signature_text(self@),
    {
        let mut r = "(".to_owned();
        r.append(self.name.as_str());
        if self.parameters.len() > 0 {
            r.append(" ");
            let t = TypedParameter::list_to_pddl(&self.parameters);
            r.append(t.as_str());
        }
        r.append(")");
        r
    }
}

} // verus!
