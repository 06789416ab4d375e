use vstd::prelude::*;

use crate::domain::domain::at_end;
use crate::error::ParserError;
use crate::lexer::Lexeme;
use crate::plan::action::{step_model_text, step_views, steps_spec, Action, StepModel};
use crate::stream::TokenStream;
use crate::text::{join, join_strings};

verus! {

/// A plan: its steps, in order.
#[derive(Debug, PartialEq, Eq, Hash)]
pub struct Plan(pub Vec<Action>);

impl View for Plan {
    type V = Seq<StepModel>;

    open spec fn view(&self) -> Seq<StepModel> {
        step_views(self.0@)
    }
}

/// The plan at `p`, which must fill the rest of the input: all timed steps, or else
/// all instantaneous ones. Steps of both kinds are not mixed.
pub open spec fn plan_spec(l: Seq<Lexeme>, p: int) -> Option<Seq<StepModel>> {
    let (q1, timed) = steps_spec(l, p, true);
    if at_end(l, q1) {
        Some(timed)
    } else {
        let (q2, simple) = steps_spec(l, p, false);
        if at_end(l, q2) {
            Some(simple)
        } else {
            None
        }
    }
}

/// The text of a plan: one step per line.
pub open spec fn plan_text(v: Seq<StepModel>) -> Seq<char> {
    join(v.map_values(|s: StepModel| step_model_text(s)), "\n"@)
}

impl Plan {
    /// Reads a plan that fills the rest of the input: timed steps, or else
    /// instantaneous ones. Where neither reading reaches the end, the error is
    /// `ExpectedEndOfInput`.
    pub fn parse(ts: TokenStream) -> (r: Result<Plan, ParserError>)
        ensures
            match plan_spec(ts.toks(), ts.pos as int) {
                Some(m) => r matches Ok(x) && x@ == m,
                None => r matches Err(ParserError::ExpectedEndOfInput),
            },
    {
        let (n, timed) = Action::parse_steps(ts, true);
        if n.is_empty() {
            return Ok(Plan(timed));
        }
        let (n, simple) = Action::parse_steps(ts, false);
        if n.is_empty() {
            return Ok(Plan(simple));
        }
        Err(ParserError::ExpectedEndOfInput)
    }

    /// The steps, in order.
    pub fn actions(&self) -> (r: &[Action])
        ensures
            step_views(r@) == self@,
    {
        self.0.as_slice()
    }

    /// The plan's text, one step per line, which reads back as the same plan.
    pub fn to_pddl(&self) -> (r: String)
        ensures
            r@ == plan_text(self@),
    {
        let mut lines: Vec<String> = Vec::new();
        for k in 0..self.0.len()
            invariant
                lines@.map_values(|s: String| s@) == step_views(self.0@.take(k as int)).map_values(
                    |s: StepModel| step_model_text(s),
                ),
        {
            let ghost before = lines@;
            let t = self.0[k].to_pddl();
            lines.push(t);
            assert(lines@.map_values(|s: String| s@) =~= before.map_values(|s: String| s@).push(
                t@,
            ));
            assert(step_views(self.0@.take(k + 1)) =~= step_views(self.0@.take(k as int)).push(
                self.0@[k as int]@,
            ));
            assert(lines@.map_values(|s: String| s@) =~= step_views(self.0@.take(k + 1)).map_values(
                |s: StepModel| step_model_text(s),
            ));
        }
        assert(self.0@.take(self.0.len() as int) =~= self.0@);
        join_strings(&lines, "\n")
    }
}

} // verus!
