use vstd::prelude::*;

use crate::domain::parameter::{param_texts, Parameter};
use crate::plan::simple_action::{step_text, SimpleAction};
use crate::tokens::Decimal;

verus! {

/// A timed step of a plan: when it starts, the action and its arguments, and how
/// long it lasts.
#[derive(Debug, PartialEq, Eq, Hash)]
pub struct DurativeAction {
    /// The action's name.
    pub name: String,
    /// The arguments.
    pub parameters: Vec<Parameter>,
    /// How long the step lasts.
    pub duration: Decimal,
    /// When the step starts.
    pub timestamp: Decimal,
}

/// The text `timestamp: (name arguments) [duration]` of a timed step.
pub open spec fn timed_step_text(
    timestamp: Seq<char>,
    name: Seq<char>,
    args: Seq<Seq<char>>,
    duration: Seq<char>,
) -> Seq<char> {
    timestamp + ": "@ + step_text(name, args) + " ["@ + duration + "]"@
}

impl DurativeAction {
    /// A timed step.
    pub fn new(name: String, parameters: Vec<Parameter>, duration: Decimal, timestamp: Decimal) -> (r:
        Self)
        ensures
            r.name == name,
            r.parameters == parameters,
            r.duration == duration,
            r.timestamp == timestamp,
    {
        DurativeAction { name, parameters, duration, timestamp }
    }

    /// The text `timestamp: (name arguments) [duration]`.
    pub fn to_pddl(&self) -> (r: String)
        ensures
            r@ == timed_step_text(
                self.timestamp@,
                self.name@,
                param_texts(self.parameters@),
                self.duration@,
            ),
    {
        let mut r = self.timestamp.to_pddl();
        r.append(": ");
        let ps: Vec<Parameter> = copy_parameters(&self.parameters);
        let step = SimpleAction::new(self.name.clone(), ps);
        let t = step.to_pddl();
        r.append(t.as_str());
        r.append(" [");
        let d = self.duration.to_pddl();
        r.append(d.as_str());
        r.append("]");
        r
    }
}

/// A copy of the arguments.
pub fn copy_parameters(v: &Vec<Parameter>) -> (r: Vec<Parameter>)
    ensures
        param_texts(r@) == param_texts(v@),
{
    let mut out: Vec<Parameter> = Vec::new();
    for k in 0..v.len()
        invariant
            param_texts(out@) == param_texts(v@.take(k as int)),
    {
        let ghost before = out@;
        let p = v[k].copy();
        out.push(p);
        assert(param_texts(out@) =~= param_texts(before).push(p@));
        assert(param_texts(v@.take(k + 1)) =~= param_texts(v@.take(k as int)).push(v@[k as int]@));
    }
    assert(v@.take(v.len() as int) =~= v@);
    out
}

} // verus!
