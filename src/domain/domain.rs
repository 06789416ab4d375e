use vstd::prelude::*;

use crate::domain::action::{action_text, action_views, actions_spec, actions_text, Action, ActionModel};
use crate::domain::constant::{constant_views, constants_spec, Constant};
use crate::domain::requirement::{
    first_unsupported, requirements_block_spec, requirements_text, Requirement,
};
use crate::domain::typed_parameter::{typed_text, TypedModel};
use crate::domain::typed_predicate::{
    functions_spec, signature_block_spec, signature_text, signature_views, signatures_text,
    SignatureModel, TypedPredicate,
};
use crate::domain::typedef::{typedef_text, typedef_views, types_spec, TypeDef};
use crate::domain::typing::Type;
use crate::error::ParserError;
use crate::keyword::Token;
use crate::lexer::Lexeme;
use crate::stream::{remaining, text_at, token_at, TokenStream};
use crate::text::join;
use crate::tokens::{expect, id, ParseResult};

verus! {

/// A planning domain.
#[derive(Debug, PartialEq, Eq, Hash)]
pub struct Domain {
    /// The name.
    pub name: String,
    /// The declared requirements.
    pub requirements: Vec<Requirement>,
    /// The declared types.
    pub types: Vec<TypeDef>,
    /// The constants.
    pub constants: Vec<Constant>,
    /// The predicates.
    pub predicates: Vec<TypedPredicate>,
    /// The functions.
    pub functions: Vec<TypedPredicate>,
    /// The actions.
    pub actions: Vec<Action>,
}

/// What a [`Domain`] denotes.
pub struct DomainModel {
    pub name: Seq<char>,
    pub requirements: Seq<Requirement>,
    pub types: Seq<(Seq<char>, Seq<char>)>,
    pub constants: Seq<TypedModel>,
    pub predicates: Seq<SignatureModel>,
    pub functions: Seq<SignatureModel>,
    pub actions: Seq<ActionModel>,
}

impl View for Domain {
    type V = DomainModel;

    open spec fn view(&self) -> DomainModel {
        DomainModel {
            name: self.name@,
            requirements: self.requirements@,
            types: typedef_views(self.types@),
            constants: constant_views(self.constants@),
            predicates: signature_views(self.predicates@),
            functions: signature_views(self.functions@),
            actions: action_views(self.actions@),
        }
    }
}

/// `(define (domain name)` and the requirements block, which may be left out, at
/// `p`: where they end, the name and the requirements.
pub open spec fn domain_prefix_spec(l: Seq<Lexeme>, p: int) -> Option<
    (int, Seq<char>, Seq<Requirement>),
> {
    if token_at(l, p) == Some(Token::OpenParen) && token_at(l, p + 1) == Some(Token::Define)
        && token_at(l, p + 2) == Some(Token::OpenParen) && token_at(l, p + 3) == Some(Token::Domain)
        && token_at(l, p + 4) == Some(Token::Id) && token_at(l, p + 5) == Some(Token::CloseParen) {
        match requirements_block_spec(l, p + 6) {
            Some((q, v)) => Some((q, text_at(l, p + 4), v)),
            None => Some((p + 6, text_at(l, p + 4), seq![])),
        }
    } else {
        None
    }
}

/// What follows the requirements of a domain, at `q`: types and constants, each of
/// which may be left out, predicates, functions, which may be left out, actions, and
/// `)`.
pub open spec fn domain_body_spec(
    l: Seq<Lexeme>,
    q: int,
    name: Seq<char>,
    reqs: Seq<Requirement>,
) -> Option<(int, DomainModel)> {
    let (q1, types) = match types_spec(l, q) {
        Some(x) => x,
        None => (q, seq![]),
    };
    let (q2, consts) = match constants_spec(l, q1) {
        Some(x) => x,
        None => (q1, seq![]),
    };
    match signature_block_spec(l, q2, Token::Predicates) {
        Some((q3, preds)) => {
            let (q4, funcs) = functions_spec(l, q3);
            let (q5, acts) = actions_spec(l, q4);
            if token_at(l, q5) == Some(Token::CloseParen) {
                Some(
                    (
                        q5 + 1,
                        DomainModel {
                            name,
                            requirements: reqs,
                            types,
                            constants: consts,
                            predicates: preds,
                            functions: funcs,
                            actions: acts,
                        },
                    ),
                )
            } else {
                None
            }
        },
        None => None,
    }
}

/// A whole domain at `p`: `(define (domain name)`, the requirements, which may be
/// left out, and the rest.
pub open spec fn domain_spec(l: Seq<Lexeme>, p: int) -> Option<(int, DomainModel)> {
    match domain_prefix_spec(l, p) {
        Some((q, name, reqs)) => domain_body_spec(l, q, name, reqs),
        None => None,
    }
}

/// A block of the text, `(kw` and the lines of its items `)`, or nothing when there
/// are no items.
pub open spec fn block_text(kw: Seq<char>, items: Seq<Seq<char>>) -> Seq<char> {
    if items.len() == 0 {
        seq![]
    } else {
        "("@ + kw + " \n"@ + join(items, "\n"@) + "\n)\n"@
    }
}

/// The text of a domain. The predicates block is written even when it is empty, as
/// the grammar asks for it.
pub open spec fn domain_text(d: DomainModel) -> Seq<char> {
    "(define (domain "@ + d.name + ")\n"@ + (if d.requirements.len() == 0 {
        seq![]
    } else {
        requirements_text(d.requirements) + "\n"@
    }) + block_text(
        ":types"@,
        d.types.map_values(|t: (Seq<char>, Seq<char>)| typedef_text(t)),
    ) + block_text(":constants"@, d.constants.map_values(|c: TypedModel| typed_text(c)))
        + "(:predicates \n"@ + signatures_text(d.predicates) + "\n)\n"@ + block_text(
        ":functions"@,
        d.functions.map_values(|s: SignatureModel| signature_text(s)),
    ) + actions_text(d.actions) + ")\n"@
}

/// Whether no lexeme is left from `p`.
pub open spec fn at_end(l: Seq<Lexeme>, p: int) -> bool {
    remaining(l, p) == 0
}

/// The lines of the type declarations' texts.
fn typedefs_lines(v: &Vec<TypeDef>) -> (r: Vec<String>)
    ensures
        r@.map_values(|s: String| s@) == typedef_views(v@).map_values(
            |t: (Seq<char>, Seq<char>)| typedef_text(t),
        ),
{
    let mut out: Vec<String> = Vec::new();
    for k in 0..v.len()
        invariant
            out@.map_values(|s: String| s@) == typedef_views(v@.take(k as int)).map_values(
                |t: (Seq<char>, Seq<char>)| typedef_text(t),
            ),
    {
        let ghost before = out@;
        let t = v[k].to_pddl();
        out.push(t);
        assert(out@.map_values(|s: String| s@) =~= before.map_values(|s: String| s@).push(t@));
        assert(typedef_views(v@.take(k + 1)) =~= typedef_views(v@.take(k as int)).push(v@[k as int]@));
        assert(out@.map_values(|s: String| s@) =~= typedef_views(v@.take(k + 1)).map_values(
            |t: (Seq<char>, Seq<char>)| typedef_text(t),
        ));
    }
    assert(v@.take(v.len() as int) =~= v@);
    out
}

/// The lines of the constants' texts.
fn constants_lines(v: &Vec<Constant>) -> (r: Vec<String>)
    ensures
        r@.map_values(|s: String| s@) == constant_views(v@).map_values(
            |c: TypedModel| typed_text(c),
        ),
{
    let mut out: Vec<String> = Vec::new();
    for k in 0..v.len()
        invariant
            out@.map_values(|s: String| s@) == constant_views(v@.take(k as int)).map_values(
                |c: TypedModel| typed_text(c),
            ),
    {
        let ghost before = out@;
        let t = v[k].to_pddl();
        out.push(t);
        assert(out@.map_values(|s: String| s@) =~= before.map_values(|s: String| s@).push(t@));
        assert(constant_views(v@.take(k + 1)) =~= constant_views(v@.take(k as int)).push(
            v@[k as int]@,
        ));
        assert(out@.map_values(|s: String| s@) =~= constant_views(v@.take(k + 1)).map_values(
            |c: TypedModel| typed_text(c),
        ));
    }
    assert(v@.take(v.len() as int) =~= v@);
    out
}

/// The lines of the signatures' texts.
fn signature_lines(v: &Vec<TypedPredicate>) -> (r: Vec<String>)
    ensures
        r@.map_values(|s: String| s@) == signature_views(v@).map_values(
            |s: SignatureModel| signature_text(s),
        ),
{
    let mut out: Vec<String> = Vec::new();
    for k in 0..v.len()
        invariant
            out@.map_values(|s: String| s@) == signature_views(v@.take(k as int)).map_values(
                |s: SignatureModel| signature_text(s),
            ),
    {
        let ghost before = out@;
        let t = v[k].to_pddl();
        out.push(t);
        assert(out@.map_values(|s: String| s@) =~= before.map_values(|s: String| s@).push(t@));
        assert(signature_views(v@.take(k + 1)) =~= signature_views(v@.take(k as int)).push(
            v@[k as int]@,
        ));
        assert(out@.map_values(|s: String| s@) =~= signature_views(v@.take(k + 1)).map_values(
            |s: SignatureModel| signature_text(s),
        ));
    }
    assert(v@.take(v.len() as int) =~= v@);
    out
}

/// The lines of the actions' texts.
fn action_lines(v: &Vec<Action>) -> (r: Vec<String>)
    ensures
        r@.map_values(|s: String| s@) == action_views(v@).map_values(
            |a: ActionModel| action_text(a),
        ),
{
    let mut out: Vec<String> = Vec::new();
    for k in 0..v.len()
        invariant
            out@.map_values(|s: String| s@) == action_views(v@.take(k as int)).map_values(
                |a: ActionModel| action_text(a),
            ),
    {
        let ghost before = out@;
        let t = v[k].to_pddl();
        out.push(t);
        assert(out@.map_values(|s: String| s@) =~= before.map_values(|s: String| s@).push(t@));
        assert(action_views(v@.take(k + 1)) =~= action_views(v@.take(k as int)).push(
            v@[k as int]@,
        ));
        assert(out@.map_values(|s: String| s@) =~= action_views(v@.take(k + 1)).map_values(
            |a: ActionModel| action_text(a),
        ));
    }
    assert(v@.take(v.len() as int) =~= v@);
    out
}

/// Appends the block `(kw` lines `)` to `r`, or nothing when there are no lines.
fn append_block(r: &mut String, kw: &str, lines: &Vec<String>)
    ensures
        final(r)@ == old(r)@ + block_text(kw@, lines@.map_values(|s: String| s@)),
{
    if lines.len() > 0 {
        r.append("(");
        r.append(kw);
        r.append(" \n");
        let body = crate::text::join_strings(lines, "\n");
        r.append(body.as_str());
        r.append("\n)\n");
    } else {
        assert(old(r)@ + seq![] =~= old(r)@);
    }
}

/// The requirement that makes a domain at `p` fail: the first unsupported one of its
/// requirements block.
pub open spec fn rejected_requirement(l: Seq<Lexeme>, p: int) -> Option<Requirement> {
    match domain_prefix_spec(l, p) {
        Some((_, _, reqs)) => first_unsupported(reqs),
        None => None,
    }
}

impl Domain {
    /// Reads what follows the requirements, through the closing `)`.
    fn parse_body<'a>(ts: TokenStream<'a>, name: String, requirements: Vec<Requirement>) -> (r:
        ParseResult<'a, Domain>)
        ensures
            crate::tokens::parsed(
                r,
                ts,
                domain_body_spec(ts.toks(), ts.pos as int, name@, requirements@),
            ),
    {
        let (n, types) = match Type::parse_types(ts) {
            Ok(x) => x,
            Err(_) => {
                let v: Vec<TypeDef> = Vec::new();
                assert(typedef_views(v@) =~= seq![]);
                (ts, v)
            },
        };
        let (n, constants) = match Constant::parse_constants(n) {
            Ok(x) => x,
            Err(_) => {
                let v: Vec<Constant> = Vec::new();
                assert(constant_views(v@) =~= seq![]);
                (n, v)
            },
        };
        let (n, predicates) = match TypedPredicate::parse_predicates(n) {
            Ok(x) => x,
            Err(e) => return Err(e),
        };
        let (n, functions) = match TypedPredicate::parse_functions(n) {
            Ok(x) => x,
            Err(e) => return Err(e),
        };
        let (n, actions) = Action::parse_actions(n);
        let n = match expect(n, Token::CloseParen) {
            Ok(n) => n,
            Err(e) => return Err(e),
        };
        Ok((n, Domain { name, requirements, types, constants, predicates, functions, actions }))
    }

    /// Reads a domain that fills the rest of the input. A requirements block that
    /// names a requirement other than `:strips` and `:typing` fails with
    /// `UnsupportedRequirement`; a domain followed by more lexemes fails with
    /// `ExpectedEndOfInput`.
    pub fn parse(ts: TokenStream) -> (r: Result<Domain, ParserError>)
        ensures
            match rejected_requirement(ts.toks(), ts.pos as int) {
                Some(bad) => r matches Err(ParserError::UnsupportedRequirement(b)) && b == bad,
                None => match domain_spec(ts.toks(), ts.pos as int) {
                    Some((q, m)) => if at_end(ts.toks(), q) {
                        r matches Ok(d) && d@ == m
                    } else {
                        r matches Err(ParserError::ExpectedEndOfInput)
                    },
                    None => r is Err,
                },
            },
    {
        let n = match expect(ts, Token::OpenParen) {
            Ok(n) => n,
            Err(e) => return Err(e),
        };
        let n = match expect(n, Token::Define) {
            Ok(n) => n,
            Err(e) => return Err(e),
        };
        let n = match expect(n, Token::OpenParen) {
            Ok(n) => n,
            Err(e) => return Err(e),
        };
        let n = match expect(n, Token::Domain) {
            Ok(n) => n,
            Err(e) => return Err(e),
        };
        let (n, name) = match id(n) {
            Ok(x) => x,
            Err(e) => return Err(e),
        };
        let n = match expect(n, Token::CloseParen) {
            Ok(n) => n,
            Err(e) => return Err(e),
        };
        let (n, requirements) = match Requirement::parse_requirements(n) {
            Ok(x) => x,
            Err(e) => return Err(e),
        };
        assert(requirements@.len() == 0 ==> requirements@ =~= seq![]);
        let (n, domain) = match Domain::parse_body(n, name, requirements) {
            Ok(x) => x,
            Err(e) => return Err(e),
        };
        if !n.is_empty() {
            return Err(ParserError::ExpectedEndOfInput);
        }
        Ok(domain)
    }

    /// The domain's text, which reads back as the same domain.
    pub fn to_pddl(&self) -> (r: String)
        ensures
            r@ == domain_text(self@),
    {
        let mut r = "(define (domain ".to_owned();
        r.append(self.name.as_str());
        r.append(")\n");
        if self.requirements.len() > 0 {
            let t = Requirement::list_to_pddl(&self.requirements);
            r.append(t.as_str());
            r.append("\n");
        }
        let ghost head = r@;
        append_block(&mut r, ":types", &typedefs_lines(&self.types));
        append_block(&mut r, ":constants", &constants_lines(&self.constants));
        r.append("(:predicates \n");
        let preds = crate::text::join_strings(&signature_lines(&self.predicates), "\n");
        r.append(preds.as_str());
        r.append("\n)\n");
        append_block(&mut r, ":functions", &signature_lines(&self.functions));
        let acts = crate::text::join_strings(&action_lines(&self.actions), "\n\n");
        r.append(acts.as_str());
        r.append(")\n");
        assert(head == "(define (domain "@ + self.name@ + ")\n"@ + (if self.requirements@.len() == 0 {
            seq![]
        } else {
            requirements_text(self.requirements@) + "\n"@
        }));
        r
    }
}

} // verus!
