use vstd::prelude::*;

use crate::domain::action::{
    action_head_spec, action_text, labelled_spec, optional_labelled_spec, parse_head,
    parse_labelled, parse_optional_labelled, write_action, ActionModel,
};
use crate::domain::expression::{ExprModel, Expression};
use crate::domain::typed_parameter::{typed_views, TypedParameter};
use crate::keyword::Token;
use crate::lexer::Lexeme;
use crate::stream::{token_at, TokenStream};
use crate::tokens::{expect, parsed, ParseResult};

verus! {

/// An instantaneous action.
#[derive(Debug, PartialEq, Eq, Hash)]
pub struct SimpleAction {
    /// The name.
    pub name: String,
    /// The parameters.
    pub parameters: Vec<TypedParameter>,
    /// The precondition, if one is written.
    pub precondition: Option<Expression>,
    /// The effect.
    pub effect: Expression,
}

/// What an optional expression denotes.
pub open spec fn optional_model(e: Option<Expression>) -> Option<ExprModel> {
    match e {
        Some(x) => Some(x@),
        None => None,
    }
}

impl View for SimpleAction {
    type V = ActionModel;

    open spec fn view(&self) -> ActionModel {
        ActionModel {
            name: self.name@,
            parameters: typed_views(self.parameters@),
            duration: None,
            condition: optional_model(self.precondition),
            effect: self.effect@,
        }
    }
}

/// `(:action name :parameters (...) [:precondition e] :effect e)` at `p`.
pub open spec fn simple_action_spec(l: Seq<Lexeme>, p: int) -> Option<(int, ActionModel)> {
    match action_head_spec(l, p, Token::Action) {
        Some((q, name, ps)) => {
            let (r, pre) = optional_labelled_spec(l, q, Token::Precondition);
            match labelled_spec(l, r, Token::Effect) {
                Some((s, eff)) => if token_at(l, s) == Some(Token::CloseParen) {
                    Some(
                        (
                            s + 1,
                            ActionModel {
                                name,
                                parameters: ps,
                                duration: None,
                                condition: pre,
                                effect: eff,
                            },
                        ),
                    )
                } else {
                    None
                },
                None => None,
            }
        },
        None => None,
    }
}

impl SimpleAction {
    /// Reads `(:action name :parameters (...) [:precondition e] :effect e)`.
    pub fn parse<'a>(ts: TokenStream<'a>) -> (r: ParseResult<'a, SimpleAction>)
        ensures
            parsed(r, ts, simple_action_spec(ts.toks(), ts.pos as int)),
    {
        let (n, (name, parameters)) = match parse_head(ts, Token::Action) {
            Ok(x) => x,
            Err(e) => return Err(e),
        };
        let (n, precondition) = parse_optional_labelled(n, Token::Precondition);
        let (n, effect) = match parse_labelled(n, Token::Effect) {
            Ok(x) => x,
            Err(e) => return Err(e),
        };
        match expect(n, Token::CloseParen) {
            Ok(n) => Ok((n, SimpleAction { name, parameters, precondition, effect })),
            Err(e) => Err(e),
        }
    }

    /// The action's text, which reads back as the same action.
    pub fn to_pddl(&self) -> (r: String)
        ensures
            r@ == action_text(self@),
    {
        write_action(&self.name, &self.parameters, None, &self.precondition, &self.effect)
    }
}

} // verus!
