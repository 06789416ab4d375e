use vstd::prelude::*;

use crate::domain::typed_parameter::{
    groups_spec, typed_text, typed_views, TypedModel, TypedParameter,
};
use crate::domain::typing::{type_text, Type};
use crate::keyword::Token;
use crate::lexer::Lexeme;
use crate::stream::{token_at, TokenStream};
use crate::tokens::{expect, ParseResult};

verus! {

/// A constant of a domain, with its type.
#[derive(Debug, PartialEq, Eq, Hash)]
pub struct Constant {
    /// The name.
    pub name: String,
    /// The type.
    pub type_: Type,
}

impl View for Constant {
    type V = TypedModel;

    open spec fn view(&self) -> TypedModel {
        (self.name@, self.type_@)
    }
}

pub open spec fn constant_views(v: Seq<Constant>) -> Seq<TypedModel> {
    v.map_values(|c: Constant| c@)
}

/// `(:constants` groups `)` at `p`; each group is names, `-` and a type.
pub open spec fn constants_spec(l: Seq<Lexeme>, p: int) -> Option<(int, Seq<TypedModel>)> {
    if token_at(l, p) == Some(Token::OpenParen) && token_at(l, p + 1) == Some(Token::Constants) {
        let (q, v) = groups_spec(l, p + 2, Token::Id, true);
        if token_at(l, q) == Some(Token::CloseParen) {
            Some((q + 1, v))
        } else {
            None
        }
    } else {
        None
    }
}

impl Constant {
    /// Reads `(:constants a b - t c - u)`: each name gets the type after its group,
    /// which must be written.
    pub fn parse_constants<'a>(ts: TokenStream<'a>) -> (r: ParseResult<'a, Vec<Constant>>)
        ensures
            match r {
                Ok((n, v)) => n.lexemes == ts.lexemes && constants_spec(ts.toks(), ts.pos as int)
                    == Some((n.pos as int, constant_views(v@))),
                Err(_) => constants_spec(ts.toks(), ts.pos as int) is None,
            },
    {
        let n = match expect(ts, Token::OpenParen) {
            Ok(n) => n,
            Err(e) => return Err(e),
        };
        let n = match expect(n, Token::Constants) {
            Ok(n) => n,
            Err(e) => return Err(e),
        };
        let (n, ps) = TypedParameter::parse_groups(n, Token::Id, true);
        let n = match expect(n, Token::CloseParen) {
            Ok(n) => n,
            Err(e) => return Err(e),
        };
        let mut out: Vec<Constant> = Vec::new();
        for k in 0..ps.len()
            invariant
                constant_views(out@) == typed_views(ps@.take(k as int)),
        {
            let ghost before = out@;
            let c = Constant { name: ps[k].name.clone(), type_: ps[k].type_.copy() };
            out.push(c);
            assert(constant_views(out@) =~= constant_views(before).push(c@));
            assert(typed_views(ps@.take(k + 1)) =~= typed_views(ps@.take(k as int)).push(
                ps@[k as int]@,
            ));
        }
        assert(ps@.take(ps.len() as int) =~= ps@);
        Ok((n, out))
    }

    /// The text `name - type`.
    pub fn to_pddl(&self) -> (r: String)
        ensures
            r@ == typed_text(self@),
    {
        let mut r = self.name.clone();
        r.append(" - ");
        let t = self.type_.to_pddl();
        r.append(t.as_str());
        r
    }
}

} // verus!
