use vstd::prelude::*;

use crate::domain::domain::at_end;
use crate::domain::expression::{expr_spec, expr_text, exprs_model, exprs_spec, ExprModel, Expression};
use crate::domain::typed_parameter::{groups_spec, typed_text, TypedModel, TypedParameter};
use crate::domain::typing::Type;
use crate::error::ParserError;
use crate::keyword::Token;
use crate::lexer::Lexeme;
use crate::stream::{text_at, token_at, TokenStream};
use crate::text::{join, join_strings};
use crate::tokens::{expect, id, ParseResult};

verus! {

/// An object of a problem, with its type.
#[derive(Debug, PartialEq, Eq, Hash)]
pub struct Object {
    /// The name.
    pub name: String,
    /// The type; `object` where none was written.
    pub type_: Type,
}

impl View for Object {
    type V = TypedModel;

    open spec fn view(&self) -> TypedModel {
        (self.name@, self.type_@)
    }
}

pub open spec fn object_views(v: Seq<Object>) -> Seq<TypedModel> {
    v.map_values(|o: Object| o@)
}

impl Object {
    /// The text `name - type`.
    pub fn to_pddl(&self) -> (r: String)
        ensures
            r@ == typed_text(self@),
    {
        let mut r = self.name.clone();
        r.append(" - ");
        let t = self.type_.to_pddl();
        r.append(t.as_str());
        r
    }
}

/// A planning problem: objects, an initial state and a goal, for a domain.
#[derive(Debug, PartialEq, Eq, Hash)]
pub struct Problem {
    /// The name.
    pub name: String,
    /// The name of the domain.
    pub domain: String,
    /// The objects.
    pub objects: Vec<Object>,
    /// The facts of the initial state.
    pub init: Vec<Expression>,
    /// The goal.
    pub goal: Expression,
}

/// What a [`Problem`] denotes.
pub struct ProblemModel {
    pub name: Seq<char>,
    pub domain: Seq<char>,
    pub objects: Seq<TypedModel>,
    pub init: Seq<ExprModel>,
    pub goal: ExprModel,
}

impl View for Problem {
    type V = ProblemModel;

    open spec fn view(&self) -> ProblemModel {
        ProblemModel {
            name: self.name@,
            domain: self.domain@,
            objects: object_views(self.objects@),
            init: exprs_model(self.init@),
            goal: self.goal@,
        }
    }
}

/// `(define (problem name) (:domain name)` at `p`: where it ends and the two names.
pub open spec fn problem_head_spec(l: Seq<Lexeme>, p: int) -> Option<(int, Seq<char>, Seq<char>)> {
    if token_at(l, p) == Some(Token::OpenParen) && token_at(l, p + 1) == Some(Token::Define)
        && token_at(l, p + 2) == Some(Token::OpenParen) && token_at(l, p + 3) == Some(
        Token::Problem,
    ) && token_at(l, p + 4) == Some(Token::Id) && token_at(l, p + 5) == Some(Token::CloseParen)
        && token_at(l, p + 6) == Some(Token::OpenParen) && token_at(l, p + 7) == Some(
        Token::ProblemDomain,
    ) && token_at(l, p + 8) == Some(Token::Id) && token_at(l, p + 9) == Some(Token::CloseParen) {
        Some((p + 10, text_at(l, p + 4), text_at(l, p + 8)))
    } else {
        None
    }
}

/// `(:objects` groups `)` at `p`; a name without a type is an `object`.
pub open spec fn objects_spec(l: Seq<Lexeme>, p: int) -> Option<(int, Seq<TypedModel>)> {
    if token_at(l, p) == Some(Token::OpenParen) && token_at(l, p + 1) == Some(Token::Objects) {
        let (q, v) = groups_spec(l, p + 2, Token::Id, false);
        if token_at(l, q) == Some(Token::CloseParen) {
            Some((q + 1, v))
        } else {
            None
        }
    } else {
        None
    }
}

/// `(:init` expressions `)` at `p`.
pub open spec fn init_spec(l: Seq<Lexeme>, p: int) -> Option<(int, Seq<ExprModel>)> {
    if token_at(l, p) == Some(Token::OpenParen) && token_at(l, p + 1) == Some(Token::Init) {
        let (q, v) = exprs_spec(l, p + 2);
        if token_at(l, q) == Some(Token::CloseParen) {
            Some((q + 1, v))
        } else {
            None
        }
    } else {
        None
    }
}

/// `(:goal` expression `)` at `p`.
pub open spec fn goal_spec(l: Seq<Lexeme>, p: int) -> Option<(int, ExprModel)> {
    if token_at(l, p) == Some(Token::OpenParen) && token_at(l, p + 1) == Some(Token::Goal) {
        match expr_spec(l, p + 2) {
            Some((q, e)) => if token_at(l, q) == Some(Token::CloseParen) {
                Some((q + 1, e))
            } else {
                None
            },
            None => None,
        }
    } else {
        None
    }
}

/// A whole problem at `p`.
pub open spec fn problem_spec(l: Seq<Lexeme>, p: int) -> Option<(int, ProblemModel)> {
    match problem_head_spec(l, p) {
        Some((q, name, domain)) => match objects_spec(l, q) {
            Some((q1, objects)) => match init_spec(l, q1) {
                Some((q2, init)) => match goal_spec(l, q2) {
                    Some((q3, goal)) => if token_at(l, q3) == Some(Token::CloseParen) {
                        Some((q3 + 1, ProblemModel { name, domain, objects, init, goal }))
                    } else {
                        None
                    },
                    None => None,
                },
                None => None,
            },
            None => None,
        },
        None => None,
    }
}

/// The text of a problem.
pub open spec fn problem_text(m: ProblemModel) -> Seq<char> {
    "(define (problem "@ + m.name + ")\n(:domain "@ + m.domain + ")\n(:objects\n"@ + join(
        m.objects.map_values(|o: TypedModel| typed_text(o)),
        "\n"@,
    ) + "\n)\n(:init\n"@ + join(m.init.map_values(|e: ExprModel| expr_text(e)), "\n"@)
        + "\n)\n(:goal\n"@ + expr_text(m.goal) + "\n)\n)"@
}

impl Problem {
    fn parse_objects<'a>(ts: TokenStream<'a>) -> (r: ParseResult<'a, Vec<Object>>)
        ensures
            match r {
                Ok((n, v)) => n.lexemes == ts.lexemes && objects_spec(ts.toks(), ts.pos as int)
                    == Some((n.pos as int, object_views(v@))),
                Err(_) => objects_spec(ts.toks(), ts.pos as int) is None,
            },
    {
        let n = match expect(ts, Token::OpenParen) {
            Ok(n) => n,
            Err(e) => return Err(e),
        };
        let n = match expect(n, Token::Objects) {
            Ok(n) => n,
            Err(e) => return Err(e),
        };
        let (n, ps) = TypedParameter::parse_groups(n, Token::Id, false);
        let n = match expect(n, Token::CloseParen) {
            Ok(n) => n,
            Err(e) => return Err(e),
        };
        let mut out: Vec<Object> = Vec::new();
        for k in 0..ps.len()
            invariant
                object_views(out@) == crate::domain::typed_parameter::typed_views(
                    ps@.take(k as int),
                ),
        {
            let ghost before = out@;
            let o = Object { name: ps[k].name.clone(), type_: ps[k].type_.copy() };
            out.push(o);
            assert(object_views(out@) =~= object_views(before).push(o@));
            assert(crate::domain::typed_parameter::typed_views(ps@.take(k + 1))
                =~= crate::domain::typed_parameter::typed_views(ps@.take(k as int)).push(
                ps@[k as int]@,
            ));
        }
        assert(ps@.take(ps.len() as int) =~= ps@);
        Ok((n, out))
    }

    fn parse_init<'a>(ts: TokenStream<'a>) -> (r: ParseResult<'a, Vec<Expression>>)
        ensures
            match r {
                Ok((n, v)) => n.lexemes == ts.lexemes && init_spec(ts.toks(), ts.pos as int)
                    == Some((n.pos as int, exprs_model(v@))),
                Err(_) => init_spec(ts.toks(), ts.pos as int) is None,
            },
    {
        let n = match expect(ts, Token::OpenParen) {
            Ok(n) => n,
            Err(e) => return Err(e),
        };
        let n = match expect(n, Token::Init) {
            Ok(n) => n,
            Err(e) => return Err(e),
        };
        let (n, v) = Expression::parse_expressions(n);
        match expect(n, Token::CloseParen) {
            Ok(n) => Ok((n, v)),
            Err(e) => Err(e),
        }
    }

    fn parse_goal<'a>(ts: TokenStream<'a>) -> (r: ParseResult<'a, Expression>)
        ensures
            crate::tokens::parsed(r, ts, goal_spec(ts.toks(), ts.pos as int)),
    {
        let n = match expect(ts, Token::OpenParen) {
            Ok(n) => n,
            Err(e) => return Err(e),
        };
        let n = match expect(n, Token::Goal) {
            Ok(n) => n,
            Err(e) => return Err(e),
        };
        let (n, e) = match Expression::parse_expression(n) {
            Ok(x) => x,
            Err(e) => return Err(e),
        };
        match expect(n, Token::CloseParen) {
            Ok(n) => Ok((n, e)),
            Err(e) => Err(e),
        }
    }

    /// Reads a problem that fills the rest of the input; a problem followed by more
    /// lexemes fails with `ExpectedEndOfInput`.
    pub fn parse(ts: TokenStream) -> (r: Result<Problem, ParserError>)
        ensures
            match problem_spec(ts.toks(), ts.pos as int) {
                Some((q, m)) => if at_end(ts.toks(), q) {
                    r matches Ok(x) && x@ == m
                } else {
                    r matches Err(ParserError::ExpectedEndOfInput)
                },
                None => r is Err,
            },
    {
        let mut n = ts;
        n = match expect(n, Token::OpenParen) {
            Ok(n) => n,
            Err(e) => return Err(e),
        };
        n = match expect(n, Token::Define) {
            Ok(n) => n,
            Err(e) => return Err(e),
        };
        n = match expect(n, Token::OpenParen) {
            Ok(n) => n,
            Err(e) => return Err(e),
        };
        n = match expect(n, Token::Problem) {
            Ok(n) => n,
            Err(e) => return Err(e),
        };
        let (n, name) = match id(n) {
            Ok(x) => x,
            Err(e) => return Err(e),
        };
        let n = match expect(n, Token::CloseParen) {
            Ok(n) => n,
            Err(e) => return Err(e),
        };
        let n = match expect(n, Token::OpenParen) {
            Ok(n) => n,
            Err(e) => return Err(e),
        };
        let n = match expect(n, Token::ProblemDomain) {
            Ok(n) => n,
            Err(e) => return Err(e),
        };
        let (n, domain) = match id(n) {
            Ok(x) => x,
            Err(e) => return Err(e),
        };
        let n = match expect(n, Token::CloseParen) {
            Ok(n) => n,
            Err(e) => return Err(e),
        };
        let (n, objects) = match Problem::parse_objects(n) {
            Ok(x) => x,
            Err(e) => return Err(e),
        };
        let (n, init) = match Problem::parse_init(n) {
            Ok(x) => x,
            Err(e) => return Err(e),
        };
        let (n, goal) = match Problem::parse_goal(n) {
            Ok(x) => x,
            Err(e) => return Err(e),
        };
        let n = match expect(n, Token::CloseParen) {
            Ok(n) => n,
            Err(e) => return Err(e),
        };
        if !n.is_empty() {
            return Err(ParserError::ExpectedEndOfInput);
        }
        Ok(Problem { name, domain, objects, init, goal })
    }

    /// The problem's text, which reads back as the same problem.
    pub fn to_pddl(&self) -> (r: String)
        ensures
            r@ == problem_text(self@),
    {
        let mut r = "(define (problem ".to_owned();
        r.append(self.name.as_str());
        r.append(")\n(:domain ");
        r.append(self.domain.as_str());
        r.append(")\n(:objects\n");
        let mut lines: Vec<String> = Vec::new();
        for k in 0..self.objects.len()
            invariant
                lines@.map_values(|s: String| s@) == object_views(
                    self.objects@.take(k as int),
                ).map_values(|o: TypedModel| typed_text(o)),
        {
            let ghost before = lines@;
            let t = self.objects[k].to_pddl();
            lines.push(t);
            assert(lines@.map_values(|s: String| s@) =~= before.map_values(|s: String| s@).push(
                t@,
            ));
            assert(object_views(self.objects@.take(k + 1)) =~= object_views(
                self.objects@.take(k as int),
            ).push(self.objects@[k as int]@));
            assert(lines@.map_values(|s: String| s@) =~= object_views(
                self.objects@.take(k + 1),
            ).map_values(|o: TypedModel| typed_text(o)));
        }
        assert(self.objects@.take(self.objects.len() as int) =~= self.objects@);
        let t = join_strings(&lines, "\n");
        r.append(t.as_str());
        r.append("\n)\n(:init\n");
        let mut facts: Vec<String> = Vec::new();
        for k in 0..self.init.len()
            invariant
                facts@.map_values(|s: String| s@) == exprs_model(
                    self.init@.take(k as int),
                ).map_values(|e: ExprModel| expr_text(e)),
        {
            let ghost before = facts@;
            let t = self.init[k].to_pddl();
            facts.push(t);
            proof {
                assert(facts@.map_values(|s: String| s@) =~= before.map_values(|s: String| s@).push(
                    t@,
                ));
                assert(self.init@.take(k + 1).drop_last() =~= self.init@.take(k as int));
                assert(self.init@.take(k + 1).last() == self.init@[k as int]);
                assert(exprs_model(self.init@.take(k + 1)) == exprs_model(
                    self.init@.take(k as int),
                ).push(self.init@[k as int]@));
                assert(facts@.map_values(|s: String| s@) =~= exprs_model(
                    self.init@.take(k + 1),
                ).map_values(|e: ExprModel| expr_text(e)));
            }
        }
        assert(self.init@.take(self.init.len() as int) =~= self.init@);
        let t = join_strings(&facts, "\n");
        r.append(t.as_str());
        r.append("\n)\n(:goal\n");
        let t = self.goal.to_pddl();
        r.append(t.as_str());
        r.append("\n)\n)");
        r
    }
}

} // verus!
