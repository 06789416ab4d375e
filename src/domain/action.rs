use vstd::prelude::*;

use crate::domain::durative_action::{durative_action_spec, DurativeAction};
use crate::domain::expression::{expr_spec, expr_text, ExprModel, Expression};
use crate::domain::simple_action::{optional_model, simple_action_spec, SimpleAction};
use crate::domain::typed_parameter::{
    groups_spec, typed_list_text, typed_views, TypedModel, TypedParameter,
};
use crate::keyword::Token;
use crate::lexer::Lexeme;
use crate::stream::{remaining, text_at, token_at, TokenStream};
use crate::text::join;
use crate::tokens::{expect, id, parsed, ParseResult};

verus! {

/// What an action denotes. A durative action has a duration; the condition is the
/// precondition of an instantaneous one.
pub struct ActionModel {
    pub name: Seq<char>,
    pub parameters: Seq<TypedModel>,
    pub duration: Option<ExprModel>,
    pub condition: Option<ExprModel>,
    pub effect: ExprModel,
}

/// An action of a domain: instantaneous or durative.
#[derive(Debug, PartialEq, Eq, Hash)]
pub enum Action {
    /// An instantaneous action.
    Simple(SimpleAction),
    /// An action that takes time.
    Durative(DurativeAction),
}

impl View for Action {
    type V = ActionModel;

    open spec fn view(&self) -> ActionModel {
        match self {
            Action::Simple(a) => a@,
            Action::Durative(a) => a@,
        }
    }
}

pub open spec fn action_views(v: Seq<Action>) -> Seq<ActionModel> {
    v.map_values(|a: Action| a@)
}

/// `(kw name :parameters (parameters)` at `p`: where it ends, the name and the
/// parameters.
pub open spec fn action_head_spec(l: Seq<Lexeme>, p: int, kw: Token) -> Option<
    (int, Seq<char>, Seq<TypedModel>),
> {
    if token_at(l, p) == Some(Token::OpenParen) && token_at(l, p + 1) == Some(kw) && token_at(
        l,
        p + 2,
    ) == Some(Token::Id) && token_at(l, p + 3) == Some(Token::Parameters) && token_at(l, p + 4)
        == Some(Token::OpenParen) {
        let (q, ps) = groups_spec(l, p + 5, Token::Var, false);
        if token_at(l, q) == Some(Token::CloseParen) {
            Some((q + 1, text_at(l, p + 2), ps))
        } else {
            None
        }
    } else {
        None
    }
}

/// The keyword `kw` followed by an expression, at `p`.
pub open spec fn labelled_spec(l: Seq<Lexeme>, p: int, kw: Token) -> Option<(int, ExprModel)> {
    if token_at(l, p) == Some(kw) {
        expr_spec(l, p + 1)
    } else {
        None
    }
}

/// The keyword `kw` followed by an expression at `p`, which may be left out.
pub open spec fn optional_labelled_spec(l: Seq<Lexeme>, p: int, kw: Token) -> (
    int,
    Option<ExprModel>,
) {
    match labelled_spec(l, p, kw) {
        Some((q, e)) => (q, Some(e)),
        None => (p, None),
    }
}

/// An action at `p`: instantaneous, or else durative.
pub open spec fn action_spec(l: Seq<Lexeme>, p: int) -> Option<(int, ActionModel)> {
    if simple_action_spec(l, p) is Some {
        simple_action_spec(l, p)
    } else {
        durative_action_spec(l, p)
    }
}

/// As many actions as follow one another from `p`.
pub open spec fn actions_spec(l: Seq<Lexeme>, p: int) -> (int, Seq<ActionModel>)
    decreases remaining(l, p),
{
    match action_spec(l, p) {
        Some((q, a)) => if remaining(l, q) < remaining(l, p) {
            let (r, rest) = actions_spec(l, q);
            (r, seq![a] + rest)
        } else {
            (p, seq![])
        },
        None => (p, seq![]),
    }
}

/// A labelled part of an action's text: `label e` and a line break, or nothing.
pub open spec fn part_text(label: Seq<char>, e: Option<ExprModel>) -> Seq<char> {
    match e {
        Some(x) => label + expr_text(x) + "\n"@,
        None => seq![],
    }
}

/// The text of an action.
pub open spec fn action_text(a: ActionModel) -> Seq<char> {
    (if a.duration is Some {
        "(:durative-action "@
    } else {
        "(:action "@
    }) + a.name + "\n:parameters ("@ + typed_list_text(a.parameters) + ")\n"@ + part_text(
        ":duration "@,
        a.duration,
    ) + part_text(
        if a.duration is Some {
            ":condition "@
        } else {
            ":precondition "@
        },
        a.condition,
    ) + ":effect \n"@ + expr_text(a.effect) + "\n)"@
}

/// The texts of actions, separated by blank lines.
pub open spec fn actions_text(v: Seq<ActionModel>) -> Seq<char> {
    join(v.map_values(|a: ActionModel| action_text(a)), "\n\n"@)
}

/// Reads `(kw name :parameters (parameters)`.
pub fn parse_head<'a>(ts: TokenStream<'a>, kw: Token) -> (r: ParseResult<
    'a,
    (String, Vec<TypedParameter>),
>)
    ensures
        match r {
            Ok((n, (name, ps))) => n.lexemes == ts.lexemes && action_head_spec(
                ts.toks(),
                ts.pos as int,
                kw,
            ) == Some((n.pos as int, name@, typed_views(ps@))),
            Err(_) => action_head_spec(ts.toks(), ts.pos as int, kw) is None,
        },
{
    let n = match expect(ts, Token::OpenParen) {
        Ok(n) => n,
        Err(e) => return Err(e),
    };
    let n = match expect(n, kw) {
        Ok(n) => n,
        Err(e) => return Err(e),
    };
    let (n, name) = match id(n) {
        Ok(x) => x,
        Err(e) => return Err(e),
    };
    let n = match expect(n, Token::Parameters) {
        Ok(n) => n,
        Err(e) => return Err(e),
    };
    let n = match expect(n, Token::OpenParen) {
        Ok(n) => n,
        Err(e) => return Err(e),
    };
    let (n, ps) = TypedParameter::parse_groups(n, Token::Var, false);
    match expect(n, Token::CloseParen) {
        Ok(n) => Ok((n, (name, ps))),
        Err(e) => Err(e),
    }
}

/// Reads the keyword `kw` and an expression.
pub fn parse_labelled<'a>(ts: TokenStream<'a>, kw: Token) -> (r: ParseResult<'a, Expression>)
    ensures
        parsed(r, ts, labelled_spec(ts.toks(), ts.pos as int, kw)),
{
    match expect(ts, kw) {
        Ok(n) => Expression::parse_expression(n),
        Err(e) => Err(e),
    }
}

/// Reads the keyword `kw` and an expression, if they are there.
pub fn parse_optional_labelled<'a>(ts: TokenStream<'a>, kw: Token) -> (r: (
    TokenStream<'a>,
    Option<Expression>,
))
    ensures
        r.0.lexemes == ts.lexemes,
        (r.0.pos as int, optional_model(r.1)) == optional_labelled_spec(
            ts.toks(),
            ts.pos as int,
            kw,
        ),
{
    match parse_labelled(ts, kw) {
        Ok((n, e)) => (n, Some(e)),
        Err(_) => (ts, None),
    }
}

/// The text of an action from its parts.
pub fn write_action(
    name: &String,
    parameters: &Vec<TypedParameter>,
    duration: Option<&Expression>,
    condition: &Option<Expression>,
    effect: &Expression,
) -> (r: String)
    ensures
        r@ == action_text(
            ActionModel {
                name: name@,
                parameters: typed_views(parameters@),
                duration: match duration {
                    Some(d) => Some(d@),
                    None => None,
                },
                condition: optional_model(*condition),
                effect: effect@,
            },
        ),
{
    let mut r = match duration {
        Some(_) => "(:durative-action ".to_owned(),
        None => "(:action ".to_owned(),
    };
    r.append(name.as_str());
    r.append("\n:parameters (");
    let ps = TypedParameter::list_to_pddl(parameters);
    r.append(ps.as_str());
    r.append(")\n");
    match duration {
        Some(d) => {
            r.append(":duration ");
            let t = d.to_pddl();
            r.append(t.as_str());
            r.append("\n");
        },
        None => {},
    }
    match condition {
        Some(c) => {
            match duration {
                Some(_) => r.append(":condition "),
                None => r.append(":precondition "),
            }
            let t = c.to_pddl();
            r.append(t.as_str());
            r.append("\n");
        },
        None => {},
    }
    r.append(":effect \n");
    let t = effect.to_pddl();
    r.append(t.as_str());
    r.append("\n)");
    r
}

impl Action {
    /// The action's name.
    pub fn name(&self) -> (r: &str)
        ensures
            r@ == self@.name,
    {
        match self {
            Action::Simple(a) => a.name.as_str(),
            Action::Durative(a) => a.name.as_str(),
        }
    }

    /// The action's parameters.
    pub fn parameters(&self) -> (r: &[TypedParameter])
        ensures
            typed_views(r@) == self@.parameters,
    {
        match self {
            Action::Simple(a) => a.parameters.as_slice(),
            Action::Durative(a) => a.parameters.as_slice(),
        }
    }

    /// A copy of the precondition of an instantaneous action, or of the condition of
    /// a durative one.
    pub fn precondition(&self) -> (r: Option<Expression>)
        ensures
            optional_model(r) == self@.condition,
    {
        let c = match self {
            Action::Simple(a) => &a.precondition,
            Action::Durative(a) => &a.condition,
        };
        match c {
            Some(e) => Some(e.copy()),
            None => None,
        }
    }

    /// A copy of the effect.
    pub fn effect(&self) -> (r: Expression)
        ensures
            r@ == self@.effect,
    {
        match self {
            Action::Simple(a) => a.effect.copy(),
            Action::Durative(a) => a.effect.copy(),
        }
    }

    /// Reads an action: instantaneous, or else durative.
    pub fn parse<'a>(ts: TokenStream<'a>) -> (r: ParseResult<'a, Action>)
        ensures
            parsed(r, ts, action_spec(ts.toks(), ts.pos as int)),
    {
        match SimpleAction::parse(ts) {
            Ok((n, a)) => Ok((n, Action::Simple(a))),
            Err(_) => match DurativeAction::parse(ts) {
                Ok((n, a)) => Ok((n, Action::Durative(a))),
                Err(e) => Err(e),
            },
        }
    }

    /// Reads as many actions as follow one another.
    pub fn parse_actions<'a>(ts: TokenStream<'a>) -> (r: (TokenStream<'a>, Vec<Action>))
        ensures
            r.0.lexemes == ts.lexemes,
            (r.0.pos as int, action_views(r.1@)) == actions_spec(ts.toks(), ts.pos as int),
    {
        let mut cur = ts;
        let mut out: Vec<Action> = Vec::new();
        loop
            invariant
                cur.lexemes == ts.lexemes,
                ({
                    let (q, rest) = actions_spec(ts.toks(), cur.pos as int);
                    actions_spec(ts.toks(), ts.pos as int) == (q, action_views(out@) + rest)
                }),
            decreases remaining(ts.toks(), cur.pos as int),
        {
            match Action::parse(cur) {
                Ok((next, a)) => {
                    if next.len() >= cur.len() {
                        assert(action_views(out@) + seq![] =~= action_views(out@));
                        return (cur, out);
                    }
                    let ghost before = out@;
                    let ghost am = a@;
                    out.push(a);
                    proof {
                        assert(action_views(out@) =~= action_views(before).push(am));
                        let (q, rest) = actions_spec(ts.toks(), next.pos as int);
                        assert(action_views(before) + (seq![am] + rest) =~= action_views(out@)
                            + rest);
                    }
                    cur = next;
                },
                Err(_) => {
                    assert(action_views(out@) + seq![] =~= action_views(out@));
                    return (cur, out);
                },
            }
        }
    }

    /// The action's text, which reads back as the same action.
    pub fn to_pddl(&self) -> (r: String)
        ensures
            r@ == action_text(self@),
    {
        match self {
            Action::Simple(a) => a.to_pddl(),
            Action::Durative(a) => a.to_pddl(),
        }
    }
}

} // verus!
