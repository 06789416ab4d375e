use vstd::prelude::*;

use crate::domain::expression::ExprModel;
use crate::keyword::Token;
use crate::laws::{
    expr_tokens, expr_wf, exprs_tokens, exprs_wf, form_tokens, holds_tokens, lemma_expression_round_trip,
    lemma_expressions_round_trip, lemma_form_parts, lemma_holds_at, lemma_holds_shift,
    lemma_typed_parameters_round_trip, lemma_words_round_trip, mark, name_tokens, type_wf,
    typed_list_tokens,
};
use crate::domain::action::{
    action_head_spec, action_spec, actions_spec, labelled_spec, optional_labelled_spec,
    ActionModel,
};
use crate::domain::durative_action::durative_action_spec;
use crate::domain::simple_action::simple_action_spec;
use crate::domain::constant::constants_spec;
use crate::domain::domain::{at_end, domain_body_spec, domain_prefix_spec, domain_spec, rejected_requirement, DomainModel};
use crate::domain::requirement::{
    first_unsupported, is_supported, requirements_block_spec, requirements_list_spec, Requirement,
};
use crate::domain::typed_parameter::TypedModel;
use crate::domain::typed_predicate::{
    functions_spec, signature_block_spec, signature_spec, signatures_spec, SignatureModel,
};
use crate::domain::typedef::{typedef_group_spec, typedef_groups_spec, types_spec};
use crate::domain::typing::words_spec;
use crate::laws::{arg_tokens, lemma_args_round_trip};
use crate::lexer::Lexeme;
use crate::plan::action::{simple_step_spec, steps_spec, timed_step_spec, StepModel};
use crate::plan::plan::plan_spec;
use crate::stream::token_at;
use crate::domain::domain::domain_text;
use crate::plan::plan::plan_text;
use crate::problem::{
    goal_spec, init_spec, objects_spec, problem_head_spec, problem_spec, problem_text, ProblemModel,
};

verus! {

/// A problem that its text can denote: its types are types, its facts and its goal
/// are expressions.
pub open spec fn problem_wf(m: ProblemModel) -> bool {
    &&& forall|i: int| 0 <= i < m.objects.len() ==> type_wf(#[trigger] m.objects[i].1)
    &&& exprs_wf(m.init)
    &&& expr_wf(m.goal)
}

/// `(define (problem name) (:domain name)` as tokens.
pub open spec fn problem_head_tokens(m: ProblemModel) -> Seq<(Token, Seq<char>)> {
    seq![
        mark(Token::OpenParen),
        mark(Token::Define),
        mark(Token::OpenParen),
        mark(Token::Problem),
        (Token::Id, m.name),
        mark(Token::CloseParen),
        mark(Token::OpenParen),
        mark(Token::ProblemDomain),
        (Token::Id, m.domain),
        mark(Token::CloseParen),
    ]
}

/// The tokens that the text of a problem reads as.
pub open spec fn problem_tokens(m: ProblemModel) -> Seq<(Token, Seq<char>)> {
    problem_head_tokens(m) + (form_tokens(Token::Objects, typed_list_tokens(m.objects, Token::Id), seq![])
        + (form_tokens(Token::Init, exprs_tokens(m.init), seq![]) + (form_tokens(
        Token::Goal,
        expr_tokens(m.goal),
        seq![],
    ) + seq![mark(Token::CloseParen)])))
}

/// A problem reads back from the tokens of its text: where the lexemes are exactly
/// the tokens that the text of a well-formed problem `m` reads as, the problem read
/// is `m`, and it fills the input. (That `lex_spec` of the printed
/// text gives exactly these tokens is not proved here.)
pub proof fn lemma_problem_round_trip(l: Seq<Lexeme>, m: ProblemModel)
    requires
        problem_wf(m),
        holds_tokens(l, 0, problem_tokens(m)),
        l.len() == problem_tokens(m).len(),
    ensures
        problem_spec(l, 0) == Some((l.len() as int, m)),
{
    let head = problem_head_tokens(m);
    let objs = form_tokens(Token::Objects, typed_list_tokens(m.objects, Token::Id), seq![]);
    let init = form_tokens(Token::Init, exprs_tokens(m.init), seq![]);
    let goal = form_tokens(Token::Goal, expr_tokens(m.goal), seq![]);
    let tail = seq![mark(Token::CloseParen)];
    lemma_holds_shift(l, 0, head, objs + (init + (goal + tail)));
    lemma_holds_at(l, 0, head, 0);
    lemma_holds_at(l, 0, head, 1);
    lemma_holds_at(l, 0, head, 2);
    lemma_holds_at(l, 0, head, 3);
    lemma_holds_at(l, 0, head, 4);
    lemma_holds_at(l, 0, head, 5);
    lemma_holds_at(l, 0, head, 6);
    lemma_holds_at(l, 0, head, 7);
    lemma_holds_at(l, 0, head, 8);
    lemma_holds_at(l, 0, head, 9);
    assert(problem_head_spec(l, 0) == Some((10int, m.name, m.domain)));
    let q1: int = 10 + objs.len() as int;
    lemma_holds_shift(l, 10, objs, init + (goal + tail));
    lemma_form_parts(l, 10, Token::Objects, typed_list_tokens(m.objects, Token::Id), seq![]);
    lemma_typed_parameters_round_trip(l, 12, m.objects, Token::Id, false);
    assert(objects_spec(l, 10) == Some((q1, m.objects)));
    let q2: int = q1 + init.len() as int;
    lemma_holds_shift(l, q1, init, goal + tail);
    lemma_form_parts(l, q1, Token::Init, exprs_tokens(m.init), seq![]);
    lemma_expressions_round_trip(l, q1 + 2, m.init);
    assert(init_spec(l, q1) == Some((q2, m.init)));
    let q3: int = q2 + goal.len() as int;
    lemma_holds_shift(l, q2, goal, tail);
    lemma_form_parts(l, q2, Token::Goal, expr_tokens(m.goal), seq![]);
    lemma_expression_round_trip(l, q2 + 2, m.goal);
    assert(goal_spec(l, q2) == Some((q3, m.goal)));
    lemma_holds_at(l, q3, tail, 0);
}

/// The tokens that the text of a step of a plan reads as.
pub open spec fn step_tokens(s: StepModel) -> Seq<(Token, Seq<char>)> {
    match s.timing {
        None => seq![mark(Token::OpenParen), (Token::Id, s.name)] + arg_tokens(s.parameters) + seq![
            mark(Token::CloseParen),
        ],
        Some((t, d)) => seq![
            (Token::Float, t),
            mark(Token::Colon),
            mark(Token::OpenParen),
            (Token::Id, s.name),
        ] + arg_tokens(s.parameters) + seq![
            mark(Token::CloseParen),
            mark(Token::OpenBracket),
            (Token::Float, d),
            mark(Token::CloseBracket),
        ],
    }
}

/// The tokens that the text of a plan reads as.
pub open spec fn steps_tokens(v: Seq<StepModel>) -> Seq<(Token, Seq<char>)>
    decreases v.len(),
{
    if v.len() == 0 {
        seq![]
    } else {
        step_tokens(v[0]) + steps_tokens(v.drop_first())
    }
}

/// A plan that its text can denote: its steps are all timed, with decimal numbers, or
/// all instantaneous.
pub open spec fn plan_wf(v: Seq<StepModel>, timed: bool) -> bool {
    forall|i: int|
        0 <= i < v.len() ==> match (#[trigger] v[i]).timing {
            Some((t, d)) => timed && t.contains('.') && d.contains('.'),
            None => !timed,
        }
}

proof fn lemma_steps_round_trip(l: Seq<Lexeme>, p: int, v: Seq<StepModel>, timed: bool)
    requires
        0 <= p,
        plan_wf(v, timed),
        holds_tokens(l, p, steps_tokens(v)),
        l.len() == p + steps_tokens(v).len(),
    ensures
        steps_spec(l, p, timed) == (l.len() as int, v),
    decreases v.len(),
{
    if v.len() == 0 {
        assert(v =~= seq![]);
    } else {
        let s = v[0];
        let st = step_tokens(s);
        lemma_holds_shift(l, p, st, steps_tokens(v.drop_first()));
        let n = arg_tokens(s.parameters).len();
        match s.timing {
            None => {
                let head = seq![mark(Token::OpenParen), (Token::Id, s.name)];
                let tail = seq![mark(Token::CloseParen)];
                lemma_holds_shift(l, p, head + arg_tokens(s.parameters), tail);
                lemma_holds_shift(l, p, head, arg_tokens(s.parameters));
                lemma_holds_at(l, p, head, 0);
                lemma_holds_at(l, p, head, 1);
                lemma_holds_at(l, p + 2 + n, tail, 0);
                lemma_args_round_trip(l, p + 2, s.parameters);
                assert(simple_step_spec(l, p) == Some((p + st.len(), s)));
            },
            Some((t, d)) => {
                let head = seq![
                    (Token::Float, t),
                    mark(Token::Colon),
                    mark(Token::OpenParen),
                    (Token::Id, s.name),
                ];
                let tail = seq![
                    mark(Token::CloseParen),
                    mark(Token::OpenBracket),
                    (Token::Float, d),
                    mark(Token::CloseBracket),
                ];
                lemma_holds_shift(l, p, head + arg_tokens(s.parameters), tail);
                lemma_holds_shift(l, p, head, arg_tokens(s.parameters));
                lemma_holds_at(l, p, head, 0);
                lemma_holds_at(l, p, head, 1);
                lemma_holds_at(l, p, head, 2);
                lemma_holds_at(l, p, head, 3);
                lemma_holds_at(l, p + 4 + n, tail, 0);
                lemma_holds_at(l, p + 4 + n, tail, 1);
                lemma_holds_at(l, p + 4 + n, tail, 2);
                lemma_holds_at(l, p + 4 + n, tail, 3);
                lemma_args_round_trip(l, p + 4, s.parameters);
                assert(timed_step_spec(l, p) == Some((p + st.len(), s)));
            },
        }
        assert forall|i: int| 0 <= i < v.drop_first().len() implies match (#[trigger] v.drop_first()[i]).timing {
            Some((t, d)) => timed && t.contains('.') && d.contains('.'),
            None => !timed,
        } by {
            assert(v.drop_first()[i] == v[i + 1]);
        }
        lemma_steps_round_trip(l, p + st.len(), v.drop_first(), timed);
        assert(seq![s] + v.drop_first() =~= v);
    }
}

/// A plan reads back from the tokens of its text: where the lexemes are exactly the
/// tokens that the text of a plan `v` reads as, its steps all timed or all
/// instantaneous, the plan read is `v`. (That `lex_spec` of the
/// printed text gives exactly these tokens is not proved here.)
pub proof fn lemma_plan_round_trip(l: Seq<Lexeme>, v: Seq<StepModel>, timed: bool)
    requires
        plan_wf(v, timed),
        holds_tokens(l, 0, steps_tokens(v)),
        l.len() == steps_tokens(v).len(),
    ensures
        plan_spec(l, 0) == Some(v),
{
    if timed || v.len() == 0 {
        if v.len() == 0 {
            assert(forall|i: int| 0 <= i < v.len() ==> match (#[trigger] v[i]).timing {
                Some((t, d)) => true && t.contains('.') && d.contains('.'),
                None => !true,
            });
        }
        lemma_steps_round_trip(l, 0, v, true);
    } else {
        lemma_holds_shift(l, 0, step_tokens(v[0]), steps_tokens(v.drop_first()));
        lemma_holds_at(l, 0, step_tokens(v[0]), 0);
        assert(timed_step_spec(l, 0) is None);
        assert(steps_spec(l, 0, true) == (0int, Seq::<StepModel>::empty()));
        lemma_steps_round_trip(l, 0, v, false);
    }
}

/// The tokens of a block `(kw` items `)`, or none when `present` does not hold.
pub open spec fn block_tokens(present: bool, kw: Token, items: Seq<(Token, Seq<char>)>) -> Seq<
    (Token, Seq<char>),
> {
    if present {
        form_tokens(kw, items, seq![])
    } else {
        seq![]
    }
}

pub open spec fn requirement_tokens(v: Seq<Requirement>) -> Seq<(Token, Seq<char>)> {
    v.map_values(|r: Requirement| mark(Token::Requirement(r)))
}

/// The tokens of type declarations: `name - parent` each.
pub open spec fn typedef_tokens(v: Seq<(Seq<char>, Seq<char>)>) -> Seq<(Token, Seq<char>)>
    decreases v.len(),
{
    if v.len() == 0 {
        seq![]
    } else {
        seq![(Token::Id, v[0].0), mark(Token::Dash), (Token::Id, v[0].1)] + typedef_tokens(
            v.drop_first(),
        )
    }
}

/// The tokens of a signature `(name parameters)`.
pub open spec fn signature_tokens(s: SignatureModel) -> Seq<(Token, Seq<char>)> {
    seq![mark(Token::OpenParen), (Token::Id, s.0)] + typed_list_tokens(s.1, Token::Var) + seq![
        mark(Token::CloseParen),
    ]
}

pub open spec fn signatures_tokens(v: Seq<SignatureModel>) -> Seq<(Token, Seq<char>)>
    decreases v.len(),
{
    if v.len() == 0 {
        seq![]
    } else {
        signature_tokens(v[0]) + signatures_tokens(v.drop_first())
    }
}

/// The tokens of a labelled part of an action, or none where it is absent.
pub open spec fn part_tokens(kw: Token, e: Option<ExprModel>) -> Seq<(Token, Seq<char>)> {
    match e {
        Some(x) => seq![mark(kw)] + expr_tokens(x),
        None => seq![],
    }
}

/// The tokens that the text of an action reads as.
pub open spec fn action_tokens(a: ActionModel) -> Seq<(Token, Seq<char>)> {
    let durative = a.duration is Some;
    seq![
        mark(Token::OpenParen),
        mark(if durative { Token::DurativeAction } else { Token::Action }),
        (Token::Id, a.name),
        mark(Token::Parameters),
        mark(Token::OpenParen),
    ] + (typed_list_tokens(a.parameters, Token::Var) + (seq![mark(Token::CloseParen)] + (
    part_tokens(Token::Duration, a.duration) + (part_tokens(
        if durative { Token::Condition } else { Token::Precondition },
        a.condition,
    ) + (seq![mark(Token::Effect)] + expr_tokens(a.effect) + seq![mark(Token::CloseParen)])))))
}

pub open spec fn actions_tokens(v: Seq<ActionModel>) -> Seq<(Token, Seq<char>)>
    decreases v.len(),
{
    if v.len() == 0 {
        seq![]
    } else {
        action_tokens(v[0]) + actions_tokens(v.drop_first())
    }
}

/// The tokens that the text of a domain reads as.
pub open spec fn domain_tokens(m: DomainModel) -> Seq<(Token, Seq<char>)> {
    seq![
        mark(Token::OpenParen),
        mark(Token::Define),
        mark(Token::OpenParen),
        mark(Token::Domain),
        (Token::Id, m.name),
        mark(Token::CloseParen),
    ] + (block_tokens(
        m.requirements.len() > 0,
        Token::Requirements,
        requirement_tokens(m.requirements),
    ) + (block_tokens(m.types.len() > 0, Token::Types, typedef_tokens(m.types)) + (block_tokens(
        m.constants.len() > 0,
        Token::Constants,
        typed_list_tokens(m.constants, Token::Id),
    ) + (form_tokens(Token::Predicates, signatures_tokens(m.predicates), seq![]) + (block_tokens(
        m.functions.len() > 0,
        Token::Functions,
        signatures_tokens(m.functions),
    ) + (actions_tokens(m.actions) + seq![mark(Token::CloseParen)]))))))
}

pub open spec fn signatures_wf(v: Seq<SignatureModel>) -> bool {
    forall|i: int, j: int| 0 <= i < v.len() && 0 <= j < v[i].1.len() ==> type_wf(#[trigger] v[i].1[j].1)
}

pub open spec fn action_wf(a: ActionModel) -> bool {
    &&& forall|j: int| 0 <= j < a.parameters.len() ==> type_wf(#[trigger] a.parameters[j].1)
    &&& (a.duration matches Some(d) ==> expr_wf(d))
    &&& (a.condition matches Some(c) ==> expr_wf(c))
    &&& expr_wf(a.effect)
}

/// A domain that its text can denote and that the parser accepts: its requirements
/// are supported, its types are types and its expressions are expressions.
pub open spec fn domain_wf(m: DomainModel) -> bool {
    &&& forall|i: int| 0 <= i < m.requirements.len() ==> is_supported(#[trigger] m.requirements[i])
    &&& forall|i: int| 0 <= i < m.constants.len() ==> type_wf(#[trigger] m.constants[i].1)
    &&& signatures_wf(m.predicates)
    &&& signatures_wf(m.functions)
    &&& forall|i: int| 0 <= i < m.actions.len() ==> action_wf(#[trigger] m.actions[i])
}

proof fn lemma_requirements_round_trip(l: Seq<Lexeme>, p: int, v: Seq<Requirement>)
    requires
        holds_tokens(l, p, requirement_tokens(v)),
        token_at(l, p + v.len()) == Some(Token::CloseParen),
    ensures
        requirements_list_spec(l, p) == (p + v.len(), v),
    decreases v.len(),
{
    if v.len() > 0 {
        let t = requirement_tokens(v);
        assert(t =~= seq![mark(Token::Requirement(v[0]))] + requirement_tokens(v.drop_first()));
        lemma_holds_shift(l, p, seq![mark(Token::Requirement(v[0]))], requirement_tokens(v.drop_first()));
        lemma_holds_at(l, p, t, 0);
        lemma_requirements_round_trip(l, p + 1, v.drop_first());
        assert(seq![v[0]] + v.drop_first() =~= v);
    } else {
        assert(v =~= seq![]);
    }
}

proof fn lemma_all_supported(v: Seq<Requirement>)
    requires
        forall|i: int| 0 <= i < v.len() ==> is_supported(#[trigger] v[i]),
    ensures
        first_unsupported(v) is None,
    decreases v.len(),
{
    if v.len() > 0 {
        assert(is_supported(v[0]));
        assert forall|i: int| 0 <= i < v.drop_first().len() implies is_supported(#[trigger] v.drop_first()[i]) by {
            assert(v.drop_first()[i] == v[i + 1]);
        }
        lemma_all_supported(v.drop_first());
    }
}

proof fn lemma_typedefs_round_trip(l: Seq<Lexeme>, p: int, v: Seq<(Seq<char>, Seq<char>)>)
    requires
        holds_tokens(l, p, typedef_tokens(v)),
        token_at(l, p + typedef_tokens(v).len()) == Some(Token::CloseParen),
    ensures
        typedef_groups_spec(l, p) == (p + typedef_tokens(v).len(), v),
    decreases v.len(),
{
    if v.len() == 0 {
        assert(v =~= seq![]);
        assert(words_spec(l, p, Token::Id) == (p, Seq::<Seq<char>>::empty()));
    } else {
        let head = seq![(Token::Id, v[0].0), mark(Token::Dash), (Token::Id, v[0].1)];
        lemma_holds_shift(l, p, head, typedef_tokens(v.drop_first()));
        lemma_holds_at(l, p, head, 0);
        lemma_holds_at(l, p, head, 1);
        lemma_holds_at(l, p, head, 2);
        assert(name_tokens(seq![v[0].0], Token::Id) =~= seq![(Token::Id, v[0].0)]);
        assert(holds_tokens(l, p, name_tokens(seq![v[0].0], Token::Id))) by {
            lemma_holds_shift(l, p, seq![(Token::Id, v[0].0)], seq![mark(Token::Dash), (Token::Id, v[0].1)]);
            assert(head =~= seq![(Token::Id, v[0].0)] + seq![mark(Token::Dash), (Token::Id, v[0].1)]);
        }
        lemma_words_round_trip(l, p, seq![v[0].0], Token::Id);
        assert(crate::domain::typedef::with_parent(seq![v[0].0], v[0].1) =~= seq![v[0]]);
        assert(typedef_group_spec(l, p) == Some((p + 3, seq![v[0]])));
        lemma_typedefs_round_trip(l, p + 3, v.drop_first());
        assert(seq![v[0]] + v.drop_first() =~= v);
    }
}

proof fn lemma_signatures_round_trip(l: Seq<Lexeme>, p: int, v: Seq<SignatureModel>)
    requires
        signatures_wf(v),
        holds_tokens(l, p, signatures_tokens(v)),
        token_at(l, p + signatures_tokens(v).len()) == Some(Token::CloseParen),
    ensures
        signatures_spec(l, p) == (p + signatures_tokens(v).len(), v),
    decreases v.len(),
{
    if v.len() == 0 {
        assert(v =~= seq![]);
    } else {
        let s = v[0];
        let head = seq![mark(Token::OpenParen), (Token::Id, s.0)];
        let ps = typed_list_tokens(s.1, Token::Var);
        let tail = seq![mark(Token::CloseParen)];
        lemma_holds_shift(l, p, signature_tokens(s), signatures_tokens(v.drop_first()));
        lemma_holds_shift(l, p, head + ps, tail);
        lemma_holds_shift(l, p, head, ps);
        lemma_holds_at(l, p, head, 0);
        lemma_holds_at(l, p, head, 1);
        lemma_holds_at(l, p + 2 + ps.len(), tail, 0);
        assert forall|j: int| 0 <= j < s.1.len() implies type_wf(#[trigger] s.1[j].1) by {
            assert(type_wf(v[0].1[j].1));
        }
        lemma_typed_parameters_round_trip(l, p + 2, s.1, Token::Var, false);
        assert(signature_spec(l, p) == Some((p + signature_tokens(s).len(), s)));
        assert(signatures_wf(v.drop_first())) by {
            assert forall|i: int, j: int| 0 <= i < v.drop_first().len() && 0 <= j < v.drop_first()[i].1.len()
                implies type_wf(#[trigger] v.drop_first()[i].1[j].1) by {
                assert(v.drop_first()[i] == v[i + 1]);
                assert(type_wf(v[i + 1].1[j].1));
            }
        }
        lemma_signatures_round_trip(l, p + signature_tokens(s).len(), v.drop_first());
        assert(seq![s] + v.drop_first() =~= v);
    }
}

proof fn lemma_part_round_trip(l: Seq<Lexeme>, p: int, kw: Token, e: Option<ExprModel>, next: Token)
    requires
        next != kw,
        e matches Some(x) ==> expr_wf(x),
        holds_tokens(l, p, part_tokens(kw, e)),
        e is None ==> token_at(l, p) == Some(next),
    ensures
        optional_labelled_spec(l, p, kw) == (p + part_tokens(kw, e).len(), e),
        e matches Some(x) ==> labelled_spec(l, p, kw) == Some((p + part_tokens(kw, e).len(), x)),
{
    match e {
        Some(x) => {
            lemma_holds_shift(l, p, seq![mark(kw)], expr_tokens(x));
            lemma_holds_at(l, p, seq![mark(kw)], 0);
            lemma_expression_round_trip(l, p + 1, x);
        },
        None => {},
    }
}

proof fn lemma_action_round_trip(l: Seq<Lexeme>, p: int, a: ActionModel)
    requires
        action_wf(a),
        holds_tokens(l, p, action_tokens(a)),
    ensures
        action_spec(l, p) == Some((p + action_tokens(a).len(), a)),
        token_at(l, p) == Some(Token::OpenParen),
        token_at(l, p + 1) == Some(Token::Action) || token_at(l, p + 1) == Some(Token::DurativeAction),
{
    let durative = a.duration is Some;
    let kw = if durative { Token::DurativeAction } else { Token::Action };
    let ckw = if durative { Token::Condition } else { Token::Precondition };
    let head = seq![
        mark(Token::OpenParen),
        mark(kw),
        (Token::Id, a.name),
        mark(Token::Parameters),
        mark(Token::OpenParen),
    ];
    let ps = typed_list_tokens(a.parameters, Token::Var);
    let close = seq![mark(Token::CloseParen)];
    let dur = part_tokens(Token::Duration, a.duration);
    let cond = part_tokens(ckw, a.condition);
    let eff = seq![mark(Token::Effect)] + expr_tokens(a.effect);
    let r0 = ps + (close + (dur + (cond + (eff + close))));
    assert(action_tokens(a) == head + r0);
    lemma_holds_shift(l, p, head, r0);
    lemma_holds_at(l, p, head, 0);
    lemma_holds_at(l, p, head, 1);
    lemma_holds_at(l, p, head, 2);
    lemma_holds_at(l, p, head, 3);
    lemma_holds_at(l, p, head, 4);
    let q0 = p + 5;
    lemma_holds_shift(l, q0, ps, close + (dur + (cond + (eff + close))));
    let q1 = q0 + ps.len();
    lemma_holds_shift(l, q1, close, dur + (cond + (eff + close)));
    lemma_holds_at(l, q1, close, 0);
    lemma_typed_parameters_round_trip(l, q0, a.parameters, Token::Var, false);
    assert(action_head_spec(l, p, kw) == Some((q1 + 1, a.name, a.parameters)));
    let q2 = q1 + 1;
    lemma_holds_shift(l, q2, dur, cond + (eff + close));
    let q3 = q2 + dur.len();
    lemma_holds_shift(l, q3, cond, eff + close);
    let q4 = q3 + cond.len();
    lemma_holds_shift(l, q4, eff, close);
    lemma_holds_shift(l, q4, seq![mark(Token::Effect)], expr_tokens(a.effect));
    lemma_holds_at(l, q4, seq![mark(Token::Effect)], 0);
    let q5 = q4 + eff.len();
    lemma_holds_at(l, q5, close, 0);
    lemma_expression_round_trip(l, q4 + 1, a.effect);
    assert(labelled_spec(l, q4, Token::Effect) == Some((q5, a.effect)));
    if cond.len() == 0 {
        assert(token_at(l, q3) == Some(Token::Effect));
    }
    lemma_part_round_trip(l, q3, ckw, a.condition, Token::Effect);
    if durative {
        lemma_part_round_trip(l, q2, Token::Duration, a.duration, Token::Effect);
        let d = a.duration->0;
        assert(labelled_spec(l, q2, Token::Duration) == Some((q3, d)));
        assert(simple_action_spec(l, p) is None);
        assert(durative_action_spec(l, p) == Some((q5 + 1, a)));
    } else {
        assert(dur =~= seq![]);
        assert(simple_action_spec(l, p) == Some((q5 + 1, a)));
    }
}

proof fn lemma_actions_round_trip(l: Seq<Lexeme>, p: int, v: Seq<ActionModel>)
    requires
        forall|i: int| 0 <= i < v.len() ==> action_wf(#[trigger] v[i]),
        holds_tokens(l, p, actions_tokens(v)),
        token_at(l, p + actions_tokens(v).len()) == Some(Token::CloseParen),
    ensures
        actions_spec(l, p) == (p + actions_tokens(v).len(), v),
    decreases v.len(),
{
    if v.len() == 0 {
        assert(v =~= seq![]);
        assert(simple_action_spec(l, p) is None);
        assert(durative_action_spec(l, p) is None);
    } else {
        lemma_holds_shift(l, p, action_tokens(v[0]), actions_tokens(v.drop_first()));
        assert(action_wf(v[0]));
        lemma_action_round_trip(l, p, v[0]);
        assert forall|i: int| 0 <= i < v.drop_first().len() implies action_wf(#[trigger] v.drop_first()[i]) by {
            assert(v.drop_first()[i] == v[i + 1]);
        }
        lemma_actions_round_trip(l, p + action_tokens(v[0]).len(), v.drop_first());
        assert(seq![v[0]] + v.drop_first() =~= v);
    }
}

proof fn lemma_constants_part(l: Seq<Lexeme>, q: int, v: Seq<TypedModel>)
    requires
        forall|i: int| 0 <= i < v.len() ==> type_wf(#[trigger] v[i].1),
        holds_tokens(l, q, block_tokens(v.len() > 0, Token::Constants, typed_list_tokens(v, Token::Id))),
        v.len() == 0 ==> token_at(l, q + 1) == Some(Token::Predicates),
    ensures
        match constants_spec(l, q) {
            Some(x) => x,
            None => (q, seq![]),
        } == (q + block_tokens(v.len() > 0, Token::Constants, typed_list_tokens(v, Token::Id)).len(), v),
{
    if v.len() > 0 {
        lemma_form_parts(l, q, Token::Constants, typed_list_tokens(v, Token::Id), seq![]);
        lemma_typed_parameters_round_trip(l, q + 2, v, Token::Id, true);
    } else {
        assert(v =~= seq![]);
    }
}

proof fn lemma_types_part(l: Seq<Lexeme>, q: int, v: Seq<(Seq<char>, Seq<char>)>)
    requires
        holds_tokens(l, q, block_tokens(v.len() > 0, Token::Types, typedef_tokens(v))),
        v.len() == 0 ==> token_at(l, q + 1) == Some(Token::Predicates) || token_at(l, q + 1) == Some(
            Token::Constants,
        ),
    ensures
        match types_spec(l, q) {
            Some(x) => x,
            None => (q, seq![]),
        } == (q + block_tokens(v.len() > 0, Token::Types, typedef_tokens(v)).len(), v),
{
    if v.len() > 0 {
        lemma_form_parts(l, q, Token::Types, typedef_tokens(v), seq![]);
        lemma_typedefs_round_trip(l, q + 2, v);
    } else {
        assert(v =~= seq![]);
    }
}

proof fn lemma_requirements_part(l: Seq<Lexeme>, q: int, v: Seq<Requirement>)
    requires
        forall|i: int| 0 <= i < v.len() ==> is_supported(#[trigger] v[i]),
        holds_tokens(l, q, block_tokens(v.len() > 0, Token::Requirements, requirement_tokens(v))),
        v.len() == 0 ==> token_at(l, q + 1) == Some(Token::Predicates) || token_at(l, q + 1) == Some(
            Token::Constants,
        ) || token_at(l, q + 1) == Some(Token::Types),
    ensures
        match requirements_block_spec(l, q) {
            Some((r, w)) => (r, w),
            None => (q, seq![]),
        } == (q + block_tokens(v.len() > 0, Token::Requirements, requirement_tokens(v)).len(), v),
        first_unsupported(v) is None,
{
    lemma_all_supported(v);
    if v.len() > 0 {
        lemma_form_parts(l, q, Token::Requirements, requirement_tokens(v), seq![]);
        lemma_requirements_round_trip(l, q + 2, v);
    } else {
        assert(v =~= seq![]);
    }
}

proof fn lemma_functions_part(l: Seq<Lexeme>, q: int, v: Seq<SignatureModel>)
    requires
        signatures_wf(v),
        holds_tokens(l, q, block_tokens(v.len() > 0, Token::Functions, signatures_tokens(v))),
        v.len() == 0 ==> token_at(l, q) == Some(Token::CloseParen) || token_at(l, q + 1) == Some(
            Token::Action,
        ) || token_at(l, q + 1) == Some(Token::DurativeAction),
    ensures
        functions_spec(l, q) == (q + block_tokens(v.len() > 0, Token::Functions, signatures_tokens(v)).len(), v),
{
    if v.len() > 0 {
        lemma_form_parts(l, q, Token::Functions, signatures_tokens(v), seq![]);
        lemma_signatures_round_trip(l, q + 2, v);
    } else {
        assert(v =~= seq![]);
    }
}

/// A domain reads back from the tokens of its text: where the lexemes are exactly
/// the tokens that the text of a well-formed domain `m` reads as, no requirement is
/// rejected and the domain read is `m`, filling the input. (That `lex_spec` of
/// the printed text gives exactly these tokens is not proved here.)
#[verifier::spinoff_prover]
#[verifier::rlimit(100)]
pub proof fn lemma_domain_round_trip(l: Seq<Lexeme>, m: DomainModel)
    requires
        domain_wf(m),
        holds_tokens(l, 0, domain_tokens(m)),
        l.len() == domain_tokens(m).len(),
    ensures
        rejected_requirement(l, 0) is None,
        domain_spec(l, 0) == Some((l.len() as int, m)),
{
    let head = seq![
        mark(Token::OpenParen),
        mark(Token::Define),
        mark(Token::OpenParen),
        mark(Token::Domain),
        (Token::Id, m.name),
        mark(Token::CloseParen),
    ];
    let rb = block_tokens(m.requirements.len() > 0, Token::Requirements, requirement_tokens(m.requirements));
    let tb = block_tokens(m.types.len() > 0, Token::Types, typedef_tokens(m.types));
    let cb = block_tokens(m.constants.len() > 0, Token::Constants, typed_list_tokens(m.constants, Token::Id));
    let pb = form_tokens(Token::Predicates, signatures_tokens(m.predicates), seq![]);
    let fb = block_tokens(m.functions.len() > 0, Token::Functions, signatures_tokens(m.functions));
    let ab = actions_tokens(m.actions);
    let close = seq![mark(Token::CloseParen)];
    lemma_holds_shift(l, 0, head, rb + (tb + (cb + (pb + (fb + (ab + close))))));
    lemma_holds_at(l, 0, head, 0);
    lemma_holds_at(l, 0, head, 1);
    lemma_holds_at(l, 0, head, 2);
    lemma_holds_at(l, 0, head, 3);
    lemma_holds_at(l, 0, head, 4);
    lemma_holds_at(l, 0, head, 5);
    let q0: int = 6;
    lemma_holds_shift(l, q0, rb, tb + (cb + (pb + (fb + (ab + close)))));
    let q1: int = q0 + rb.len();
    lemma_holds_shift(l, q1, tb, cb + (pb + (fb + (ab + close))));
    let q2: int = q1 + tb.len();
    lemma_holds_shift(l, q2, cb, pb + (fb + (ab + close)));
    let q3: int = q2 + cb.len();
    lemma_holds_shift(l, q3, pb, fb + (ab + close));
    let q4: int = q3 + pb.len();
    lemma_holds_shift(l, q4, fb, ab + close);
    let q5: int = q4 + fb.len();
    lemma_holds_shift(l, q5, ab, close);
    let q6: int = q5 + ab.len();
    lemma_holds_at(l, q6, close, 0);
    lemma_form_parts(l, q3, Token::Predicates, signatures_tokens(m.predicates), seq![]);
    lemma_signatures_round_trip(l, q3 + 2, m.predicates);
    lemma_constants_part(l, q2, m.constants);
    if m.constants.len() > 0 {
        lemma_form_parts(l, q2, Token::Constants, typed_list_tokens(m.constants, Token::Id), seq![]);
    }
    lemma_types_part(l, q1, m.types);
    if m.types.len() > 0 {
        lemma_form_parts(l, q1, Token::Types, typedef_tokens(m.types), seq![]);
    }
    lemma_requirements_part(l, q0, m.requirements);
    if m.actions.len() > 0 {
        assert(ab == action_tokens(m.actions[0]) + actions_tokens(m.actions.drop_first()));
        lemma_holds_shift(l, q5, action_tokens(m.actions[0]), actions_tokens(m.actions.drop_first()));
        assert(action_wf(m.actions[0]));
        lemma_action_round_trip(l, q5, m.actions[0]);
    }
    lemma_functions_part(l, q4, m.functions);
    lemma_actions_round_trip(l, q5, m.actions);
    assert(domain_prefix_spec(l, 0) == Some((q1, m.name, m.requirements)));
    assert(domain_body_spec(l, q1, m.name, m.requirements) == Some((q6 + 1, m)));
}

/// Printing is stable: where the lexemes are the tokens of a well-formed domain's
/// text, the domain read back prints as the same text.
pub proof fn lemma_domain_print_stable(l: Seq<Lexeme>, m: DomainModel)
    requires
        domain_wf(m),
        holds_tokens(l, 0, domain_tokens(m)),
        l.len() == domain_tokens(m).len(),
    ensures
        domain_spec(l, 0) matches Some((_, r)) && domain_text(r) == domain_text(m),
{
    lemma_domain_round_trip(l, m);
}

/// Printing is stable: where the lexemes are the tokens of a well-formed problem's
/// text, the problem read back prints as the same text.
pub proof fn lemma_problem_print_stable(l: Seq<Lexeme>, m: ProblemModel)
    requires
        problem_wf(m),
        holds_tokens(l, 0, problem_tokens(m)),
        l.len() == problem_tokens(m).len(),
    ensures
        problem_spec(l, 0) matches Some((_, r)) && problem_text(r) == problem_text(m),
{
    lemma_problem_round_trip(l, m);
}

/// Printing is stable: where the lexemes are the tokens of a plan's text, the plan
/// read back prints as the same text.
pub proof fn lemma_plan_print_stable(l: Seq<Lexeme>, v: Seq<StepModel>, timed: bool)
    requires
        plan_wf(v, timed),
        holds_tokens(l, 0, steps_tokens(v)),
        l.len() == steps_tokens(v).len(),
    ensures
        plan_spec(l, 0) matches Some(r) && plan_text(r) == plan_text(v),
{
    lemma_plan_round_trip(l, v, timed);
}

} // verus!
