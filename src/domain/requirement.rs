use vstd::prelude::*;

use crate::error::ParserError;
use crate::keyword::Token;
use crate::lexer::Lexeme;
use crate::stream::{remaining, token_at, TokenStream};
use crate::text::{is_word, join};
use crate::tokens::{expect, ParseResult};

verus! {

/// A capability flag that a domain declares in its `:requirements` block.
#[derive(Clone, Copy, Debug, PartialEq, Eq, Structural, Hash)]
pub enum Requirement {
    /// The basic STRIPS-style action representation.
    Strips,
    /// Types for objects and for the arguments of predicates and functions.
    Typing,
    /// Disjunctions in action preconditions.
    DisjunctivePreconditions,
    /// The equality predicate `=`.
    Equality,
    /// Existential quantifiers in action preconditions.
    ExistentialPreconditions,
    /// Universal quantifiers in action preconditions.
    UniversalPreconditions,
    /// Both existential and universal preconditions.
    QuantifiedPreconditions,
    /// Conditional effects in actions.
    ConditionalEffects,
    /// Actions defined in terms of sub-actions.
    ActionExpansions,
    /// Sub-actions applied to all objects of a type.
    ForeachExpansions,
    /// Sub-actions with dependencies forming a DAG.
    DagExpansions,
    /// Axioms defining derived predicates.
    DomainAxioms,
    /// Subgoals achieved through axioms.
    SubgoalsThroughAxioms,
    /// Safety constraints restricting plans.
    SafetyConstraints,
    /// Expressions evaluated during planning.
    ExpressionEvaluation,
    /// Functions whose value changes during planning.
    Fluents,
    /// The open-world assumption.
    OpenWorld,
    /// Strong negation.
    TrueNegation,
    /// The ADL subset of the language.
    Adl,
    /// UCPOP-style conditional planning.
    Ucpop,
    /// Functions with numeric values.
    NumericFluents,
    /// Actions with a duration.
    DurativeActions,
    /// Inequalities on durations.
    DurativeInequalities,
    /// Effects that change values continuously.
    ContinuousEffects,
    /// Negated preconditions.
    NegativePreconditions,
    /// Predicates derived from other predicates.
    DerivedPredicates,
    /// Facts that change at given times.
    TimedInitialLiterals,
    /// Soft constraints on plans.
    Preferences,
    /// Constraints on plans.
    Constraints,
    /// Costs attached to actions.
    ActionCosts,
    /// Utilities attached to goals.
    GoalUtilities,
    /// Continuous time.
    Time,
}

/// The keyword that names a requirement.
pub open spec fn requirement_text(r: Requirement) -> Seq<char> {
    match r {
        Requirement::Strips => ":strips"@,
        Requirement::Typing => ":typing"@,
        Requirement::DisjunctivePreconditions => ":disjunctive-preconditions"@,
        Requirement::Equality => ":equality"@,
        Requirement::ExistentialPreconditions => ":existential-preconditions"@,
        Requirement::UniversalPreconditions => ":universal-preconditions"@,
        Requirement::QuantifiedPreconditions => ":quantified-preconditions"@,
        Requirement::ConditionalEffects => ":conditional-effects"@,
        Requirement::ActionExpansions => ":action-expansions"@,
        Requirement::ForeachExpansions => ":foreach-expansions"@,
        Requirement::DagExpansions => ":dag-expansions"@,
        Requirement::DomainAxioms => ":domain-axioms"@,
        Requirement::SubgoalsThroughAxioms => ":subgoals-through-axioms"@,
        Requirement::SafetyConstraints => ":safety-constraints"@,
        Requirement::ExpressionEvaluation => ":expression-evaluation"@,
        Requirement::Fluents => ":fluents"@,
        Requirement::OpenWorld => ":open-world"@,
        Requirement::TrueNegation => ":true-negation"@,
        Requirement::Adl => ":adl"@,
        Requirement::Ucpop => ":ucpop"@,
        Requirement::NumericFluents => ":numeric-fluents"@,
        Requirement::DurativeActions => ":durative-actions"@,
        Requirement::DurativeInequalities => ":durative-inequalities"@,
        Requirement::ContinuousEffects => ":continuous-effects"@,
        Requirement::NegativePreconditions => ":negative-preconditions"@,
        Requirement::DerivedPredicates => ":derived-predicates"@,
        Requirement::TimedInitialLiterals => ":timed-initial-literals"@,
        Requirement::Preferences => ":preferences"@,
        Requirement::Constraints => ":constraints"@,
        Requirement::ActionCosts => ":action-costs"@,
        Requirement::GoalUtilities => ":goal-utilities"@,
        Requirement::Time => ":time"@,
    }
}

/// The requirement that a lower-case keyword names, if any. `:duration-inequalities` is
/// accepted as a spelling of `:durative-inequalities`.
pub open spec fn requirement_named(w: Seq<char>) -> Option<Requirement> {
    if w == ":strips"@ {
        Some(Requirement::Strips)
    } else if w == ":typing"@ {
        Some(Requirement::Typing)
    } else if w == ":disjunctive-preconditions"@ {
        Some(Requirement::DisjunctivePreconditions)
    } else if w == ":equality"@ {
        Some(Requirement::Equality)
    } else if w == ":existential-preconditions"@ {
        Some(Requirement::ExistentialPreconditions)
    } else if w == ":universal-preconditions"@ {
        Some(Requirement::UniversalPreconditions)
    } else if w == ":quantified-preconditions"@ {
        Some(Requirement::QuantifiedPreconditions)
    } else if w == ":conditional-effects"@ {
        Some(Requirement::ConditionalEffects)
    } else if w == ":action-expansions"@ {
        Some(Requirement::ActionExpansions)
    } else if w == ":foreach-expansions"@ {
        Some(Requirement::ForeachExpansions)
    } else if w == ":dag-expansions"@ {
        Some(Requirement::DagExpansions)
    } else if w == ":domain-axioms"@ {
        Some(Requirement::DomainAxioms)
    } else if w == ":subgoals-through-axioms"@ {
        Some(Requirement::SubgoalsThroughAxioms)
    } else if w == ":safety-constraints"@ {
        Some(Requirement::SafetyConstraints)
    } else if w == ":expression-evaluation"@ {
        Some(Requirement::ExpressionEvaluation)
    } else if w == ":fluents"@ {
        Some(Requirement::Fluents)
    } else if w == ":open-world"@ {
        Some(Requirement::OpenWorld)
    } else if w == ":true-negation"@ {
        Some(Requirement::TrueNegation)
    } else if w == ":adl"@ {
        Some(Requirement::Adl)
    } else if w == ":ucpop"@ {
        Some(Requirement::Ucpop)
    } else if w == ":numeric-fluents"@ {
        Some(Requirement::NumericFluents)
    } else if w == ":durative-actions"@ {
        Some(Requirement::DurativeActions)
    } else if w == ":durative-inequalities"@ {
        Some(Requirement::DurativeInequalities)
    } else if w == ":continuous-effects"@ {
        Some(Requirement::ContinuousEffects)
    } else if w == ":negative-preconditions"@ {
        Some(Requirement::NegativePreconditions)
    } else if w == ":derived-predicates"@ {
        Some(Requirement::DerivedPredicates)
    } else if w == ":timed-initial-literals"@ {
        Some(Requirement::TimedInitialLiterals)
    } else if w == ":preferences"@ {
        Some(Requirement::Preferences)
    } else if w == ":constraints"@ {
        Some(Requirement::Constraints)
    } else if w == ":action-costs"@ {
        Some(Requirement::ActionCosts)
    } else if w == ":goal-utilities"@ {
        Some(Requirement::GoalUtilities)
    } else if w == ":time"@ {
        Some(Requirement::Time)
    } else if w == ":duration-inequalities"@ {
        Some(Requirement::DurativeInequalities)
    } else {
        None
    }
}

/// Whether a requirement belongs to the subset that the parser accepts.
pub open spec fn is_supported(r: Requirement) -> bool {
    r == Requirement::Strips || r == Requirement::Typing
}

impl Requirement {
    /// The requirement named by a lower-case keyword (`:strips`), if any.
    pub fn from_keyword(w: &String) -> (r: Option<Requirement>)
        ensures
            r == requirement_named(w@),
    {
        if is_word(w, ":strips") {
            Some(Requirement::Strips)
        } else if is_word(w, ":typing") {
            Some(Requirement::Typing)
        } else if is_word(w, ":disjunctive-preconditions") {
            Some(Requirement::DisjunctivePreconditions)
        } else if is_word(w, ":equality") {
            Some(Requirement::Equality)
        } else if is_word(w, ":existential-preconditions") {
            Some(Requirement::ExistentialPreconditions)
        } else if is_word(w, ":universal-preconditions") {
            Some(Requirement::UniversalPreconditions)
        } else if is_word(w, ":quantified-preconditions") {
            Some(Requirement::QuantifiedPreconditions)
        } else if is_word(w, ":conditional-effects") {
            Some(Requirement::ConditionalEffects)
        } else if is_word(w, ":action-expansions") {
            Some(Requirement::ActionExpansions)
        } else if is_word(w, ":foreach-expansions") {
            Some(Requirement::ForeachExpansions)
        } else if is_word(w, ":dag-expansions") {
            Some(Requirement::DagExpansions)
        } else if is_word(w, ":domain-axioms") {
            Some(Requirement::DomainAxioms)
        } else if is_word(w, ":subgoals-through-axioms") {
            Some(Requirement::SubgoalsThroughAxioms)
        } else if is_word(w, ":safety-constraints") {
            Some(Requirement::SafetyConstraints)
        } else if is_word(w, ":expression-evaluation") {
            Some(Requirement::ExpressionEvaluation)
        } else if is_word(w, ":fluents") {
            Some(Requirement::Fluents)
        } else if is_word(w, ":open-world") {
            Some(Requirement::OpenWorld)
        } else if is_word(w, ":true-negation") {
            Some(Requirement::TrueNegation)
        } else if is_word(w, ":adl") {
            Some(Requirement::Adl)
        } else if is_word(w, ":ucpop") {
            Some(Requirement::Ucpop)
        } else if is_word(w, ":numeric-fluents") {
            Some(Requirement::NumericFluents)
        } else if is_word(w, ":durative-actions") {
            Some(Requirement::DurativeActions)
        } else if is_word(w, ":durative-inequalities") {
            Some(Requirement::DurativeInequalities)
        } else if is_word(w, ":continuous-effects") {
            Some(Requirement::ContinuousEffects)
        } else if is_word(w, ":negative-preconditions") {
            Some(Requirement::NegativePreconditions)
        } else if is_word(w, ":derived-predicates") {
            Some(Requirement::DerivedPredicates)
        } else if is_word(w, ":timed-initial-literals") {
            Some(Requirement::TimedInitialLiterals)
        } else if is_word(w, ":preferences") {
            Some(Requirement::Preferences)
        } else if is_word(w, ":constraints") {
            Some(Requirement::Constraints)
        } else if is_word(w, ":action-costs") {
            Some(Requirement::ActionCosts)
        } else if is_word(w, ":goal-utilities") {
            Some(Requirement::GoalUtilities)
        } else if is_word(w, ":time") {
            Some(Requirement::Time)
        } else if is_word(w, ":duration-inequalities") {
            Some(Requirement::DurativeInequalities)
        } else {
            None
        }
    }

    /// Whether the parser accepts this requirement: only `:strips` and `:typing` are.
    pub fn is_supported(&self) -> (b: bool)
        ensures
            b == is_supported(*self),
    {
        match self {
            Requirement::Strips | Requirement::Typing => true,
            _ => false,
        }
    }

    /// The keyword of the requirement, such as `:strips`.
    pub fn to_pddl(&self) -> (r: String)
        ensures
            r@ == requirement_text(*self),
    {
        let s = match self {
            Requirement::Strips => ":strips",
            Requirement::Typing => ":typing",
            Requirement::DisjunctivePreconditions => ":disjunctive-preconditions",
            Requirement::Equality => ":equality",
            Requirement::ExistentialPreconditions => ":existential-preconditions",
            Requirement::UniversalPreconditions => ":universal-preconditions",
            Requirement::QuantifiedPreconditions => ":quantified-preconditions",
            Requirement::ConditionalEffects => ":conditional-effects",
            Requirement::ActionExpansions => ":action-expansions",
            Requirement::ForeachExpansions => ":foreach-expansions",
            Requirement::DagExpansions => ":dag-expansions",
            Requirement::DomainAxioms => ":domain-axioms",
            Requirement::SubgoalsThroughAxioms => ":subgoals-through-axioms",
            Requirement::SafetyConstraints => ":safety-constraints",
            Requirement::ExpressionEvaluation => ":expression-evaluation",
            Requirement::Fluents => ":fluents",
            Requirement::OpenWorld => ":open-world",
            Requirement::TrueNegation => ":true-negation",
            Requirement::Adl => ":adl",
            Requirement::Ucpop => ":ucpop",
            Requirement::NumericFluents => ":numeric-fluents",
            Requirement::DurativeActions => ":durative-actions",
            Requirement::DurativeInequalities => ":durative-inequalities",
            Requirement::ContinuousEffects => ":continuous-effects",
            Requirement::NegativePreconditions => ":negative-preconditions",
            Requirement::DerivedPredicates => ":derived-predicates",
            Requirement::TimedInitialLiterals => ":timed-initial-literals",
            Requirement::Preferences => ":preferences",
            Requirement::Constraints => ":constraints",
            Requirement::ActionCosts => ":action-costs",
            Requirement::GoalUtilities => ":goal-utilities",
            Requirement::Time => ":time",
        };
        s.to_owned()
    }
}

/// As many requirement keywords as follow one another from `p`.
pub open spec fn requirements_list_spec(l: Seq<Lexeme>, p: int) -> (int, Seq<Requirement>)
    decreases remaining(l, p),
{
    match token_at(l, p) {
        Some(Token::Requirement(r)) => {
            let (q, rest) = requirements_list_spec(l, p + 1);
            (q, seq![r] + rest)
        },
        _ => (p, seq![]),
    }
}

/// `(:requirements` keywords `)` at `p`.
pub open spec fn requirements_block_spec(l: Seq<Lexeme>, p: int) -> Option<(int, Seq<Requirement>)> {
    if token_at(l, p) == Some(Token::OpenParen) && token_at(l, p + 1) == Some(Token::Requirements) {
        let (q, v) = requirements_list_spec(l, p + 2);
        if token_at(l, q) == Some(Token::CloseParen) {
            Some((q + 1, v))
        } else {
            None
        }
    } else {
        None
    }
}

/// The first requirement in `v` that the parser does not accept.
pub open spec fn first_unsupported(v: Seq<Requirement>) -> Option<Requirement>
    decreases v.len(),
{
    if v.len() == 0 {
        None
    } else if !is_supported(v[0]) {
        Some(v[0])
    } else {
        first_unsupported(v.drop_first())
    }
}

/// The text of a requirements block: `(:requirements` keywords `)`.
pub open spec fn requirements_text(v: Seq<Requirement>) -> Seq<char> {
    "(:requirements "@ + join(v.map_values(|r: Requirement| requirement_text(r)), " "@) + ")"@
}

proof fn lemma_first_unsupported_step(v: Seq<Requirement>, k: int)
    requires
        0 <= k < v.len(),
        first_unsupported(v.take(k)) is None,
    ensures
        first_unsupported(v.take(k + 1)) == if is_supported(v[k]) {
            None
        } else {
            Some(v[k])
        },
    decreases k,
{
    reveal_with_fuel(first_unsupported, 2);
    if k > 0 {
        assert(v.take(k)[0] == v[0]);
        assert(v.take(k + 1)[0] == v[0]);
        assert(v.take(k).drop_first() =~= v.drop_first().take(k - 1));
        assert(v.take(k + 1).drop_first() =~= v.drop_first().take(k));
        assert(v.drop_first()[k - 1] == v[k]);
        lemma_first_unsupported_step(v.drop_first(), k - 1);
    } else {
        assert(v.take(1)[0] == v[0]);
        assert(v.take(1).drop_first() =~= seq![]);
    }
}

impl Requirement {
    fn parse_list<'a>(ts: TokenStream<'a>) -> (r: (TokenStream<'a>, Vec<Requirement>))
        ensures
            r.0.lexemes == ts.lexemes,
            (r.0.pos as int, r.1@) == requirements_list_spec(ts.toks(), ts.pos as int),
    {
        let mut cur = ts;
        let mut out: Vec<Requirement> = Vec::new();
        loop
            invariant
                cur.lexemes == ts.lexemes,
                ({
                    let (q, rest) = requirements_list_spec(ts.toks(), cur.pos as int);
                    requirements_list_spec(ts.toks(), ts.pos as int) == (q, out@ + rest)
                }),
            decreases remaining(ts.toks(), cur.pos as int),
        {
            if cur.pos < cur.lexemes.len() {
                match cur.lexemes[cur.pos].token {
                    Ok(Token::Requirement(r)) => {
                        proof {
                            let (q, rest) = requirements_list_spec(ts.toks(), cur.pos + 1);
                            assert(out@ + (seq![r] + rest) =~= out@.push(r) + rest);
                        }
                        out.push(r);
                        cur = TokenStream { lexemes: cur.lexemes, pos: cur.pos + 1 };
                        continue;
                    },
                    _ => {},
                }
            }
            assert(out@ + seq![] =~= out@);
            return (cur, out);
        }
    }

    /// Reads `(:requirements` keywords `)`, which may be left out: then there are none
    /// and nothing is read. A block that names a requirement other than `:strips` and
    /// `:typing` fails with `UnsupportedRequirement`, naming the first such.
    pub fn parse_requirements<'a>(ts: TokenStream<'a>) -> (r: ParseResult<'a, Vec<Requirement>>)
        ensures
            match requirements_block_spec(ts.toks(), ts.pos as int) {
                None => r matches Ok((n, v)) && n == ts && v@.len() == 0,
                Some((q, v)) => match first_unsupported(v) {
                    Some(bad) => r matches Err(ParserError::UnsupportedRequirement(b)) && b == bad,
                    None => r matches Ok((n, w)) && n.lexemes == ts.lexemes && n.pos == q && w@
                        == v,
                },
            },
    {
        let block = match expect(ts, Token::OpenParen) {
            Ok(n) => match expect(n, Token::Requirements) {
                Ok(n) => {
                    let (n, v) = Requirement::parse_list(n);
                    match expect(n, Token::CloseParen) {
                        Ok(n) => Some((n, v)),
                        Err(_) => None,
                    }
                },
                Err(_) => None,
            },
            Err(_) => None,
        };
        match block {
            None => Ok((ts, Vec::new())),
            Some((n, v)) => {
                for k in 0..v.len()
                    invariant
                        requirements_block_spec(ts.toks(), ts.pos as int) == Some(
                            (n.pos as int, v@),
                        ),
                        first_unsupported(v@.take(k as int)) is None,
                {
                    proof {
                        lemma_first_unsupported_step(v@, k as int);
                    }
                    if !v[k].is_supported() {
                        proof {
                            lemma_first_unsupported_prefix(v@, k + 1);
                        }
                        return Err(ParserError::UnsupportedRequirement(v[k]));
                    }
                }
                assert(v@.take(v.len() as int) =~= v@);
                Ok((n, v))
            },
        }
    }

    /// The text of a requirements block.
    pub fn list_to_pddl(v: &Vec<Requirement>) -> (r: String)
        ensures
            r@ == requirements_text(v@),
    {
        let ghost w = v@.map_values(|r: Requirement| requirement_text(r));
        let mut inner = String::new();
        for k in 0..v.len()
            invariant
                w == v@.map_values(|r: Requirement| requirement_text(r)),
                inner@ == join(w.take(k as int), " "@),
        {
            if k > 0 {
                inner.append(" ");
            }
            let t = v[k].to_pddl();
            inner.append(t.as_str());
            assert(w.take(k + 1).drop_last() =~= w.take(k as int));
            assert(k == 0 ==> w.take(k + 1) =~= seq![w[0]]);
        }
        assert(w.take(v.len() as int) =~= w);
        let mut r = "(:requirements ".to_owned();
        r.append(inner.as_str());
        r.append(")");
        r
    }
}

/// Where a prefix of `v` holds an unsupported requirement, the first one of `v` is the
/// prefix's.
proof fn lemma_first_unsupported_prefix(v: Seq<Requirement>, k: int)
    requires
        0 <= k <= v.len(),
        first_unsupported(v.take(k)) is Some,
    ensures
        first_unsupported(v) == first_unsupported(v.take(k)),
    decreases k,
{
    assert(k > 0);
    assert(v.take(k)[0] == v[0]);
    if is_supported(v[0]) {
        assert(v.take(k).drop_first() =~= v.drop_first().take(k - 1));
        lemma_first_unsupported_prefix(v.drop_first(), k - 1);
    }
}

} // verus!
