use vstd::prelude::*;

use crate::domain::parameter::{param_texts, params_spec, Parameter};
use crate::keyword::Token;
use crate::lexer::Lexeme;
use crate::stream::{remaining, text_at, token_at, TokenStream};
use crate::text::join;
use crate::tokens::{expect, id, ParseResult};

verus! {

/// A predicate with untyped parameters.
#[derive(Debug, PartialEq, Eq, Hash)]
pub struct Predicate {
    /// The name.
    pub name: String,
    /// The parameters.
    pub parameters: Vec<Parameter>,
}

impl View for Predicate {
    type V = (Seq<char>, Seq<Seq<char>>);

    open spec fn view(&self) -> (Seq<char>, Seq<Seq<char>>) {
        (self.name@, param_texts(self.parameters@))
    }
}

pub open spec fn predicate_views(v: Seq<Predicate>) -> Seq<(Seq<char>, Seq<Seq<char>>)> {
    v.map_values(|p: Predicate| p@)
}

/// `(name arguments)` at `p`.
pub open spec fn untyped_signature_spec(l: Seq<Lexeme>, p: int) -> Option<
    (int, (Seq<char>, Seq<Seq<char>>)),
> {
    if token_at(l, p) == Some(Token::OpenParen) && token_at(l, p + 1) == Some(Token::Id) {
        let (q, args) = params_spec(l, p + 2);
        if token_at(l, q) == Some(Token::CloseParen) {
            Some((q + 1, (text_at(l, p + 1), args)))
        } else {
            None
        }
    } else {
        None
    }
}

/// As many untyped signatures as follow one another from `p`.
pub open spec fn untyped_signatures_spec(l: Seq<Lexeme>, p: int) -> (
    int,
    Seq<(Seq<char>, Seq<Seq<char>>)>,
)
    decreases remaining(l, p),
{
    match untyped_signature_spec(l, p) {
        Some((q, s)) => if remaining(l, q) < remaining(l, p) {
            let (r, rest) = untyped_signatures_spec(l, q);
            (r, seq![s] + rest)
        } else {
            (p, seq![])
        },
        None => (p, seq![]),
    }
}

/// `(:predicates (name arguments) ...)` at `p`.
pub open spec fn untyped_predicates_spec(l: Seq<Lexeme>, p: int) -> Option<
    (int, Seq<(Seq<char>, Seq<Seq<char>>)>),
> {
    if token_at(l, p) == Some(Token::OpenParen) && token_at(l, p + 1) == Some(Token::Predicates) {
        let (q, v) = untyped_signatures_spec(l, p + 2);
        if token_at(l, q) == Some(Token::CloseParen) {
            Some((q + 1, v))
        } else {
            None
        }
    } else {
        None
    }
}

/// The text `(name arguments)`.
pub open spec fn predicate_text(p: (Seq<char>, Seq<Seq<char>>)) -> Seq<char> {
    "("@ + join(seq![p.0] + p.1, " "@) + ")"@
}

impl Predicate {
    fn parse_signature<'a>(ts: TokenStream<'a>) -> (r: ParseResult<'a, Predicate>)
        ensures
            match r {
                Ok((n, v)) => n.lexemes == ts.lexemes && untyped_signature_spec(
                    ts.toks(),
                    ts.pos as int,
                ) == Some((n.pos as int, v@)),
                Err(_) => untyped_signature_spec(ts.toks(), ts.pos as int) is None,
            },
    {
        let n = match expect(ts, Token::OpenParen) {
            Ok(n) => n,
            Err(e) => return Err(e),
        };
        let (n, name) = match id(n) {
            Ok(x) => x,
            Err(e) => return Err(e),
        };
        let (n, parameters) = match Parameter::parse_parameters(n) {
            Ok(x) => x,
            Err(e) => return Err(e),
        };
        match expect(n, Token::CloseParen) {
            Ok(n) => Ok((n, Predicate { name, parameters })),
            Err(e) => Err(e),
        }
    }

    /// Reads `(:predicates (name arguments) ...)`, the arguments without types.
    pub fn parse_predicates<'a>(ts: TokenStream<'a>) -> (r: ParseResult<'a, Vec<Predicate>>)
        ensures
            match r {
                Ok((n, v)) => n.lexemes == ts.lexemes && untyped_predicates_spec(
                    ts.toks(),
                    ts.pos as int,
                ) == Some((n.pos as int, predicate_views(v@))),
                Err(_) => untyped_predicates_spec(ts.toks(), ts.pos as int) is None,
            },
    {
        let n = match expect(ts, Token::OpenParen) {
            Ok(n) => n,
            Err(e) => return Err(e),
        };
        let n = match expect(n, Token::Predicates) {
            Ok(n) => n,
            Err(e) => return Err(e),
        };
        let mut cur = n;
        let mut out: Vec<Predicate> = Vec::new();
        loop
            invariant
                cur.lexemes == ts.lexemes,
                ({
                    let (q, rest) = untyped_signatures_spec(ts.toks(), cur.pos as int);
                    untyped_signatures_spec(ts.toks(), n.pos as int) == (q, predicate_views(out@)
                        + rest)
                }),
            ensures
                cur.lexemes == ts.lexemes,
                untyped_signatures_spec(ts.toks(), n.pos as int) == (
                    cur.pos as int,
                    predicate_views(out@),
                ),
            decreases remaining(ts.toks(), cur.pos as int),
        {
            match Predicate::parse_signature(cur) {
                Ok((next, s)) => {
                    if next.len() >= cur.len() {
                        assert(predicate_views(out@) + seq![] =~= predicate_views(out@));
                        break;
                    }
                    let ghost before = out@;
                    let ghost sm = s@;
                    out.push(s);
                    proof {
                        assert(predicate_views(out@) =~= predicate_views(before).push(sm));
                        let (q, rest) = untyped_signatures_spec(ts.toks(), next.pos as int);
                        assert(predicate_views(before) + (seq![sm] + rest) =~= predicate_views(
                            out@,
                        ) + rest);
                    }
                    cur = next;
                },
                Err(_) => {
                    assert(predicate_views(out@) + seq![] =~= predicate_views(out@));
                    break;
                },
            }
        }
        match expect(cur, Token::CloseParen) {
            Ok(n) => Ok((n, out)),
            Err(e) => Err(e),
        }
    }

    /// The text `(name arguments)`.
    pub fn to_pddl(&self) -> (r: String)
        ensures
            r@ == predicate_text(self@),
    {
        let ghost args = param_texts(self.parameters@);
        let mut r = "(".to_owned();
        r.append(self.name.as_str());
        for k in 0..self.parameters.len()
            invariant
                args == param_texts(self.parameters@),
                r@ == "("@ + join(seq![self.name@] + args.take(k as int), " "@),
        {
            r.append(" ");
            r.append(self.parameters[k].0.as_str());
            assert((seq![self.name@] + args.take(k + 1)).drop_last() =~= seq![self.name@]
                + args.take(k as int));
        }
        assert(args.take(self.parameters.len() as int) =~= args);
        r.append(")");
        r
    }
}

} // verus!
