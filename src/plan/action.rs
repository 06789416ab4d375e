use vstd::prelude::*;

use crate::domain::parameter::{param_texts, params_spec, Parameter};
use crate::plan::durative_action::{timed_step_text, DurativeAction};
use crate::plan::simple_action::{step_text, SimpleAction};
use crate::keyword::Token;
use crate::lexer::Lexeme;
use crate::stream::{remaining, text_at, token_at, TokenStream};
use crate::tokens::{expect, float, id, parsed, ParseResult};

verus! {

/// What a step of a plan denotes; a timed step has its timestamp and its duration.
pub struct StepModel {
    pub name: Seq<char>,
    pub parameters: Seq<Seq<char>>,
    pub timing: Option<(Seq<char>, Seq<char>)>,
}

/// A step of a plan: instantaneous or timed.
#[derive(Debug, PartialEq, Eq, Hash)]
pub enum Action {
    /// An instantaneous step.
    Simple(SimpleAction),
    /// A timed step.
    Durative(DurativeAction),
}

impl View for Action {
    type V = StepModel;

    open spec fn view(&self) -> StepModel {
        match self {
            Action::Simple(a) => StepModel {
                name: a.name@,
                parameters: param_texts(a.parameters@),
                timing: None,
            },
            Action::Durative(a) => StepModel {
                name: a.name@,
                parameters: param_texts(a.parameters@),
                timing: Some((a.timestamp@, a.duration@)),
            },
        }
    }
}

pub open spec fn step_views(v: Seq<Action>) -> Seq<StepModel> {
    v.map_values(|a: Action| a@)
}

/// A decimal number at `p`.
pub open spec fn is_decimal_at(l: Seq<Lexeme>, p: int) -> bool {
    token_at(l, p) == Some(Token::Float) && text_at(l, p).contains('.')
}

/// `(name arguments)` at `p`.
pub open spec fn simple_step_spec(l: Seq<Lexeme>, p: int) -> Option<(int, StepModel)> {
    if token_at(l, p) == Some(Token::OpenParen) && token_at(l, p + 1) == Some(Token::Id) {
        let (q, args) = params_spec(l, p + 2);
        if token_at(l, q) == Some(Token::CloseParen) {
            Some((q + 1, StepModel { name: text_at(l, p + 1), parameters: args, timing: None }))
        } else {
            None
        }
    } else {
        None
    }
}

/// `timestamp: (name arguments) [duration]` at `p`.
pub open spec fn timed_step_spec(l: Seq<Lexeme>, p: int) -> Option<(int, StepModel)> {
    if is_decimal_at(l, p) && token_at(l, p + 1) == Some(Token::Colon) && token_at(l, p + 2) == Some(
        Token::OpenParen,
    ) && token_at(l, p + 3) == Some(Token::Id) {
        let (q, args) = params_spec(l, p + 4);
        if token_at(l, q) == Some(Token::CloseParen) && token_at(l, q + 1) == Some(
            Token::OpenBracket,
        ) && is_decimal_at(l, q + 2) && token_at(l, q + 3) == Some(Token::CloseBracket) {
            Some(
                (
                    q + 4,
                    StepModel {
                        name: text_at(l, p + 3),
                        parameters: args,
                        timing: Some((text_at(l, p), text_at(l, q + 2))),
                    },
                ),
            )
        } else {
            None
        }
    } else {
        None
    }
}

/// A step at `p`: instantaneous, or else timed.
pub open spec fn step_spec(l: Seq<Lexeme>, p: int) -> Option<(int, StepModel)> {
    if simple_step_spec(l, p) is Some {
        simple_step_spec(l, p)
    } else {
        timed_step_spec(l, p)
    }
}

/// As many steps as follow one another from `p`, all timed when `timed` holds and
/// all instantaneous otherwise.
pub open spec fn steps_spec(l: Seq<Lexeme>, p: int, timed: bool) -> (int, Seq<StepModel>)
    decreases remaining(l, p),
{
    let s = if timed {
        timed_step_spec(l, p)
    } else {
        simple_step_spec(l, p)
    };
    match s {
        Some((q, a)) => if remaining(l, q) < remaining(l, p) {
            let (r, rest) = steps_spec(l, q, timed);
            (r, seq![a] + rest)
        } else {
            (p, seq![])
        },
        None => (p, seq![]),
    }
}

/// The text of a step.
pub open spec fn step_model_text(s: StepModel) -> Seq<char> {
    match s.timing {
        Some((t, d)) => timed_step_text(t, s.name, s.parameters, d),
        None => step_text(s.name, s.parameters),
    }
}

impl SimpleAction {
    /// Reads `(name arguments)`.
    pub fn parse<'a>(ts: TokenStream<'a>) -> (r: ParseResult<'a, Action>)
        ensures
            parsed(r, ts, simple_step_spec(ts.toks(), ts.pos as int)),
    {
        let n = match expect(ts, Token::OpenParen) {
            Ok(n) => n,
            Err(e) => return Err(e),
        };
        let (n, name) = match id(n) {
            Ok(x) => x,
            Err(e) => return Err(e),
        };
        let (n, parameters) = match Parameter::parse_parameters(n) {
            Ok(x) => x,
            Err(e) => return Err(e),
        };
        match expect(n, Token::CloseParen) {
            Ok(n) => Ok((n, Action::Simple(SimpleAction::new(name, parameters)))),
            Err(e) => Err(e),
        }
    }
}

impl DurativeAction {
    /// Reads `timestamp: (name arguments) [duration]`.
    pub fn parse<'a>(ts: TokenStream<'a>) -> (r: ParseResult<'a, Action>)
        ensures
            parsed(r, ts, timed_step_spec(ts.toks(), ts.pos as int)),
    {
        let (n, timestamp) = match float(ts) {
            Ok(x) => x,
            Err(e) => return Err(e),
        };
        let n = match expect(n, Token::Colon) {
            Ok(n) => n,
            Err(e) => return Err(e),
        };
        let n = match expect(n, Token::OpenParen) {
            Ok(n) => n,
            Err(e) => return Err(e),
        };
        let (n, name) = match id(n) {
            Ok(x) => x,
            Err(e) => return Err(e),
        };
        let (n, parameters) = match Parameter::parse_parameters(n) {
            Ok(x) => x,
            Err(e) => return Err(e),
        };
        let n = match expect(n, Token::CloseParen) {
            Ok(n) => n,
            Err(e) => return Err(e),
        };
        let n = match expect(n, Token::OpenBracket) {
            Ok(n) => n,
            Err(e) => return Err(e),
        };
        let (n, duration) = match float(n) {
            Ok(x) => x,
            Err(e) => return Err(e),
        };
        match expect(n, Token::CloseBracket) {
            Ok(n) => Ok(
                (n, Action::Durative(DurativeAction::new(name, parameters, duration, timestamp))),
            ),
            Err(e) => Err(e),
        }
    }
}

impl Action {
    /// An instantaneous step applying `name` to `parameters`.
    pub fn new(name: String, parameters: Vec<Parameter>) -> (r: Self)
        ensures
            r == Action::Simple(SimpleAction { name, parameters }),
    {
        Action::Simple(SimpleAction::new(name, parameters))
    }

    /// The step's action name.
    pub fn name(&self) -> (r: &str)
        ensures
            r@ == self@.name,
    {
        match self {
            Action::Simple(a) => a.name.as_str(),
            Action::Durative(a) => a.name.as_str(),
        }
    }

    /// The step's arguments.
    pub fn parameters(&self) -> (r: &[Parameter])
        ensures
            param_texts(r@) == self@.parameters,
    {
        match self {
            Action::Simple(a) => a.parameters.as_slice(),
            Action::Durative(a) => a.parameters.as_slice(),
        }
    }

    /// Reads a step: instantaneous, or else timed.
    pub fn parse<'a>(ts: TokenStream<'a>) -> (r: ParseResult<'a, Action>)
        ensures
            parsed(r, ts, step_spec(ts.toks(), ts.pos as int)),
    {
        match SimpleAction::parse(ts) {
            Ok(x) => Ok(x),
            Err(_) => DurativeAction::parse(ts),
        }
    }

    /// Reads as many steps as follow one another, all timed when `timed` holds and all
    /// instantaneous otherwise.
    pub fn parse_steps<'a>(ts: TokenStream<'a>, timed: bool) -> (r: (TokenStream<'a>, Vec<Action>))
        ensures
            r.0.lexemes == ts.lexemes,
            (r.0.pos as int, step_views(r.1@)) == steps_spec(ts.toks(), ts.pos as int, timed),
    {
        let mut cur = ts;
        let mut out: Vec<Action> = Vec::new();
        loop
            invariant
                cur.lexemes == ts.lexemes,
                ({
                    let (q, rest) = steps_spec(ts.toks(), cur.pos as int, timed);
                    steps_spec(ts.toks(), ts.pos as int, timed) == (q, step_views(out@) + rest)
                }),
            decreases remaining(ts.toks(), cur.pos as int),
        {
            let step = if timed {
                DurativeAction::parse(cur)
            } else {
                SimpleAction::parse(cur)
            };
            match step {
                Ok((next, a)) => {
                    if next.len() >= cur.len() {
                        assert(step_views(out@) + seq![] =~= step_views(out@));
                        return (cur, out);
                    }
                    let ghost before = out@;
                    let ghost am = a@;
                    out.push(a);
                    proof {
                        assert(step_views(out@) =~= step_views(before).push(am));
                        let (q, rest) = steps_spec(ts.toks(), next.pos as int, timed);
                        assert(step_views(before) + (seq![am] + rest) =~= step_views(out@)
                            + rest);
                    }
                    cur = next;
                },
                Err(_) => {
                    assert(step_views(out@) + seq![] =~= step_views(out@));
                    return (cur, out);
                },
            }
        }
    }

    /// The step's text: `(name arguments)`, or `timestamp: (name arguments) [duration]`.
    pub fn to_pddl(&self) -> (r: String)
        ensures
            r@ == step_model_text(self@),
    {
        match self {
            Action::Simple(a) => a.to_pddl(),
            Action::Durative(a) => a.to_pddl(),
        }
    }
}

} // verus!
