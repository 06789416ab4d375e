use vstd::prelude::*;

use crate::domain::action::{
    action_head_spec, action_text, labelled_spec, optional_labelled_spec, parse_head,
    parse_labelled, parse_optional_labelled, write_action, ActionModel,
};
use crate::domain::expression::Expression;
use crate::domain::simple_action::optional_model;
use crate::domain::typed_parameter::{typed_views, TypedParameter};
use crate::keyword::Token;
use crate::lexer::Lexeme;
use crate::stream::{token_at, TokenStream};
use crate::tokens::{expect, parsed, ParseResult};

verus! {

/// An action that takes time.
#[derive(Debug, PartialEq, Eq, Hash)]
pub struct DurativeAction {
    /// The name.
    pub name: String,
    /// The parameters.
    pub parameters: Vec<TypedParameter>,
    /// The duration constraint, such as `(= ?duration 10)`.
    pub duration: Expression,
    /// The condition, if one is written.
    pub condition: Option<Expression>,
    /// The effect.
    pub effect: Expression,
}

impl View for DurativeAction {
    type V = ActionModel;

    open spec fn view(&self) -> ActionModel {
        ActionModel {
            name: self.name@,
            parameters: typed_views(self.parameters@),
            duration: Some(self.duration@),
            condition: optional_model(self.condition),
            effect: self.effect@,
        }
    }
}

/// `(:durative-action name :parameters (...) :duration e [:condition e] :effect e)` at
/// `p`.
pub open spec fn durative_action_spec(l: Seq<Lexeme>, p: int) -> Option<(int, ActionModel)> {
    match action_head_spec(l, p, Token::DurativeAction) {
        Some((q, name, ps)) => match labelled_spec(l, q, Token::Duration) {
            Some((r, d)) => {
                let (s, c) = optional_labelled_spec(l, r, Token::Condition);
                match labelled_spec(l, s, Token::Effect) {
                    Some((t, eff)) => if token_at(l, t) == Some(Token::CloseParen) {
                        Some(
                            (
                                t + 1,
                                ActionModel {
                                    name,
                                    parameters: ps,
                                    duration: Some(d),
                                    condition: c,
                                    effect: eff,
                                },
                            ),
                        )
                    } else {
                        None
                    },
                    None => None,
                }
            },
            None => None,
        },
        None => None,
    }
}

impl DurativeAction {
    /// Reads `(:durative-action name :parameters (...) :duration e [:condition e]
    /// :effect e)`.
    pub fn parse<'a>(ts: TokenStream<'a>) -> (r: ParseResult<'a, DurativeAction>)
        ensures
            parsed(r, ts, durative_action_spec(ts.toks(), ts.pos as int)),
    {
        let (n, (name, parameters)) = match parse_head(ts, Token::DurativeAction) {
            Ok(x) => x,
            Err(e) => return Err(e),
        };
        let (n, duration) = match parse_labelled(n, Token::Duration) {
            Ok(x) => x,
            Err(e) => return Err(e),
        };
        let (n, condition) = parse_optional_labelled(n, Token::Condition);
        let (n, effect) = match parse_labelled(n, Token::Effect) {
            Ok(x) => x,
            Err(e) => return Err(e),
        };
        match expect(n, Token::CloseParen) {
            Ok(n) => Ok((n, DurativeAction { name, parameters, duration, condition, effect })),
            Err(e) => Err(e),
        }
    }

    /// The action's text, which reads back as the same action.
    pub fn to_pddl(&self) -> (r: String)
        ensures
            r@ == action_text(self@),
    {
        write_action(
            &self.name,
            &self.parameters,
            Some(&self.duration),
            &self.condition,
            &self.effect,
        )
    }
}

} // verus!
