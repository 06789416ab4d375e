use vstd::prelude::*;

use crate::domain::parameter::{param_texts, Parameter};
use crate::text::join;

verus! {

/// A step of a plan: an action applied to arguments.
#[derive(Debug, PartialEq, Eq, Hash)]
pub struct SimpleAction {
    /// The action's name.
    pub name: String,
    /// The arguments.
    pub parameters: Vec<Parameter>,
}

/// The text `(name arguments)` of a step.
pub open spec fn step_text(name: Seq<char>, args: Seq<Seq<char>>) -> Seq<char> {
    "("@ + join(seq![name] + args, " "@) + ")"@
}

impl SimpleAction {
    /// A step applying `name` to `parameters`.
    pub fn new(name: String, parameters: Vec<Parameter>) -> (r: Self)
        ensures
            r.name == name,
            r.parameters == parameters,
    {
        SimpleAction { name, parameters }
    }

    /// The text `(name arguments)`.
    pub fn to_pddl(&self) -> (r: String)
        ensures
            r@ == step_text(self.name@, param_texts(self.parameters@)),
    {
        let ghost args = param_texts(self.parameters@);
        let mut r = "(".to_owned();
        r.append(self.name.as_str());
        for k in 0..self.parameters.len()
            invariant
                args == param_texts(self.parameters@),
                r@ == "("@ + join(seq![self.name@] + args.take(k as int), " "@),
        {
            r.append(" ");
            r.append(self.parameters[k].0.as_str());
            assert((seq![self.name@] + args.take(k + 1)).drop_last() =~= seq![self.name@]
                + args.take(k as int));
        }
        assert(args.take(self.parameters.len() as int) =~= args);
        r.append(")");
        r
    }
}

} // verus!
