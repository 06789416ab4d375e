use vstd::prelude::*;

use crate::domain::typing::{
    object_type, texts, type_spec, type_text, words, words_spec, Type, TypeModel,
};
use crate::text::join;
use crate::error::ParserError;
use crate::keyword::Token;
use crate::lexer::Lexeme;
use crate::stream::{remaining, token_at, TokenStream};
use crate::tokens::{expect, ParseResult};

verus! {

/// A name with its type: a parameter `?x - block`, and also an object or a constant.
#[derive(Debug, PartialEq, Eq, Hash)]
pub struct TypedParameter {
    /// The name, with its `?` where it is a variable.
    pub name: String,
    /// The type; `object` where none was written.
    pub type_: Type,
}

/// What a typed name denotes: the name and the type.
pub type TypedModel = (Seq<char>, TypeModel);

impl View for TypedParameter {
    type V = TypedModel;

    open spec fn view(&self) -> TypedModel {
        (self.name@, self.type_@)
    }
}

pub open spec fn typed_views(v: Seq<TypedParameter>) -> Seq<TypedModel> {
    v.map_values(|p: TypedParameter| p@)
}

/// The text of a typed name: `name - type`.
pub open spec fn typed_text(p: TypedModel) -> Seq<char> {
    p.0 + " - "@ + type_text(p.1)
}

/// The texts of typed names, with a space between each two.
pub open spec fn typed_list_text(ps: Seq<TypedModel>) -> Seq<char> {
    join(ps.map_values(|p: TypedModel| typed_text(p)), " "@)
}

/// Each of `names` with the type `t`.
pub open spec fn fan_out(names: Seq<Seq<char>>, t: TypeModel) -> Seq<TypedModel> {
    names.map_values(|n: Seq<char>| (n, t))
}

/// One group at `p`: one or more names of kind `k` (variables or identifiers), then
/// `-` and a type that all of them get. Where `required` does not hold the type may be
/// left out, and then it is `object`.
pub open spec fn group_spec(l: Seq<Lexeme>, p: int, k: Token, required: bool) -> Option<
    (int, Seq<TypedModel>),
> {
    let (q, names) = words_spec(l, p, k);
    if names.len() == 0 {
        None
    } else if token_at(l, q) == Some(Token::Dash) && type_spec(l, q + 1) is Some {
        let (r, t) = type_spec(l, q + 1)->0;
        Some((r, fan_out(names, t)))
    } else if required {
        None
    } else {
        Some((q, fan_out(names, object_type())))
    }
}

/// As many groups as follow one another from `p`, their names in order.
pub open spec fn groups_spec(l: Seq<Lexeme>, p: int, k: Token, required: bool) -> (
    int,
    Seq<TypedModel>,
)
    decreases remaining(l, p),
{
    match group_spec(l, p, k, required) {
        Some((q, g)) => if remaining(l, q) < remaining(l, p) {
            let (r, rest) = groups_spec(l, q, k, required);
            (r, g + rest)
        } else {
            (p, seq![])
        },
        None => (p, seq![]),
    }
}

pub proof fn lemma_words_progress(l: Seq<Lexeme>, p: int, k: Token)
    ensures
        words_spec(l, p, k).0 >= p,
        words_spec(l, p, k).1.len() > 0 ==> remaining(l, words_spec(l, p, k).0) < remaining(l, p),
    decreases remaining(l, p),
{
    if token_at(l, p) == Some(k) {
        lemma_words_progress(l, p + 1, k);
    }
}

proof fn lemma_type_progress(l: Seq<Lexeme>, p: int)
    ensures
        type_spec(l, p) matches Some((q, _)) ==> q > p,
{
    if token_at(l, p) != Some(Token::Id) && token_at(l, p) == Some(Token::OpenParen) && token_at(
        l,
        p + 1,
    ) == Some(Token::Either) {
        lemma_words_progress(l, p + 2, Token::Id);
    }
}

/// Reading groups never moves back.
pub proof fn lemma_groups_progress(l: Seq<Lexeme>, p: int, k: Token, required: bool)
    ensures
        groups_spec(l, p, k, required).0 >= p,
    decreases remaining(l, p),
{
    if let Some((q, g)) = group_spec(l, p, k, required) {
        if remaining(l, q) < remaining(l, p) {
            lemma_words_progress(l, p, k);
            lemma_type_progress(l, words_spec(l, p, k).0 + 1);
            lemma_groups_progress(l, q, k, required);
        }
    }
}

impl TypedParameter {
    /// A copy of the parameter.
    pub fn copy(&self) -> (r: TypedParameter)
        ensures
            r@ == self@,
    {
        TypedParameter { name: self.name.clone(), type_: self.type_.copy() }
    }

    /// Reads one group: names of kind `k`, and `-` with a type, which may be left out
    /// unless `required` holds.
    pub fn parse_group<'a>(ts: TokenStream<'a>, k: Token, required: bool) -> (r: ParseResult<
        'a,
        Vec<TypedParameter>,
    >)
        ensures
            match r {
                Ok((n, v)) => n.lexemes == ts.lexemes && group_spec(
                    ts.toks(),
                    ts.pos as int,
                    k,
                    required,
                ) == Some((n.pos as int, typed_views(v@))),
                Err(_) => group_spec(ts.toks(), ts.pos as int, k, required) is None,
            },
    {
        let (n, names) = words(ts, k);
        if names.len() == 0 {
            return Err(ParserError::ExpectedIdentifier);
        }
        let ghost q = n.pos as int;
        let (after, ty) = match expect(n, Token::Dash) {
            Ok(d) => match Type::parse_type(d) {
                Ok((m, ty)) => (m, ty),
                Err(e) => {
                    if required {
                        return Err(e);
                    }
                    (n, Type::object())
                },
            },
            Err(e) => {
                if required {
                    return Err(e);
                }
                (n, Type::object())
            },
        };
        let mut out: Vec<TypedParameter> = Vec::new();
        for j in 0..names.len()
            invariant
                typed_views(out@) == fan_out(texts(names@.take(j as int)), ty@),
        {
            let ghost before = out@;
            let item = TypedParameter { name: names[j].clone(), type_: ty.copy() };
            out.push(item);
            assert(typed_views(out@) =~= typed_views(before).push(item@));
            assert(texts(names@.take(j + 1)) =~= texts(names@.take(j as int)).push(
                names@[j as int]@,
            ));
            assert(fan_out(texts(names@.take(j + 1)), ty@) =~= fan_out(
                texts(names@.take(j as int)),
                ty@,
            ).push((names@[j as int]@, ty@)));
        }
        assert(names@.take(names.len() as int) =~= names@);
        Ok((after, out))
    }

    /// Reads as many groups as follow one another: names of kind `k`, each group
    /// closed by `-` and a type, which may be left out unless `required` holds.
    pub fn parse_groups<'a>(ts: TokenStream<'a>, k: Token, required: bool) -> (r: (
        TokenStream<'a>,
        Vec<TypedParameter>,
    ))
        ensures
            r.0.lexemes == ts.lexemes,
            (r.0.pos as int, typed_views(r.1@)) == groups_spec(
                ts.toks(),
                ts.pos as int,
                k,
                required,
            ),
    {
        let mut cur = ts;
        let mut out: Vec<TypedParameter> = Vec::new();
        loop
            invariant
                cur.lexemes == ts.lexemes,
                ({
                    let (q, rest) = groups_spec(ts.toks(), cur.pos as int, k, required);
                    groups_spec(ts.toks(), ts.pos as int, k, required) == (q, typed_views(out@)
                        + rest)
                }),
            decreases remaining(ts.toks(), cur.pos as int),
        {
            match TypedParameter::parse_group(cur, k, required) {
                Ok((next, g)) => {
                    proof {
                        lemma_words_progress(ts.toks(), cur.pos as int, k);
                        let (q0, names) = words_spec(ts.toks(), cur.pos as int, k);
                        lemma_type_progress(ts.toks(), q0 + 1);
                        assert(next.pos >= q0);
                        let (q, rest) = groups_spec(ts.toks(), next.pos as int, k, required);
                        assert(typed_views(out@) + (typed_views(g@) + rest) =~= typed_views(
                            out@ + g@,
                        ) + rest);
                    }
                    let mut g = g;
                    out.append(&mut g);
                    cur = next;
                },
                Err(_) => {
                    assert(typed_views(out@) + seq![] =~= typed_views(out@));
                    return (cur, out);
                },
            }
        }
    }

    /// Reads a parameter list such as `?a ?b - foo ?c`: each name gets the type
    /// written after its group, or `object`.
    pub fn parse_typed_parameters<'a>(ts: TokenStream<'a>) -> (r: ParseResult<
        'a,
        Vec<TypedParameter>,
    >)
        ensures
            r matches Ok((n, v)) && n.lexemes == ts.lexemes && (n.pos as int, typed_views(v@))
                == groups_spec(ts.toks(), ts.pos as int, Token::Var, false),
    {
        Ok(TypedParameter::parse_groups(ts, Token::Var, false))
    }

    /// The text `name - type`.
    pub fn to_pddl(&self) -> (r: String)
        ensures
            r@ == typed_text(self@),
    {
        let mut r = self.name.clone();
        r.append(" - ");
        let t = self.type_.to_pddl();
        r.append(t.as_str());
        r
    }

    /// The texts of the parameters, with a space between each two.
    pub fn list_to_pddl(ps: &Vec<TypedParameter>) -> (r: String)
        ensures
            r@ == typed_list_text(typed_views(ps@)),
    {
        let ghost v = typed_views(ps@).map_values(|p: TypedModel| typed_text(p));
        let mut r = String::new();
        for k in 0..ps.len()
            invariant
                v == typed_views(ps@).map_values(|p: TypedModel| typed_text(p)),
                r@ == join(v.take(k as int), " "@),
        {
            if k > 0 {
                r.append(" ");
            }
            let t = ps[k].to_pddl();
            r.append(t.as_str());
            assert(v.take(k + 1).drop_last() =~= v.take(k as int));
            assert(k == 0 ==> v.take(k + 1) =~= seq![v[0]]);
        }
        assert(v.take(ps.len() as int) =~= v);
        r
    }
}

} // verus!
