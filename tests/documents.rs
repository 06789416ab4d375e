use pddl_parser::domain::action::Action as DomainAction;
use pddl_parser::domain::domain::Domain;
use pddl_parser::domain::durative_action::DurativeAction as DomainDurativeAction;
use pddl_parser::domain::expression::{BinaryOp, DurationInstant, Expression};
use pddl_parser::domain::parameter::Parameter;
use pddl_parser::domain::requirement::Requirement;
use pddl_parser::domain::simple_action::SimpleAction as DomainSimpleAction;
use pddl_parser::domain::typed_parameter::TypedParameter;
use pddl_parser::domain::typed_predicate::TypedPredicate;
use pddl_parser::domain::typedef::TypeDef;
use pddl_parser::domain::typing::Type;
use pddl_parser::error::ParserError;
use pddl_parser::lexer::lex;
use pddl_parser::plan::action::Action;
use pddl_parser::plan::plan::Plan;
use pddl_parser::plan::simple_action::SimpleAction;
use pddl_parser::problem::{Object, Problem};
use pddl_parser::stream::TokenStream;

const LETSEAT_DOMAIN: &str = "; a robot arm that moves cupcakes
(define (domain letseat)
    (:requirements :typing)

    (:types
        location locatable - object
        bot cupcake - locatable
        robot - bot
    )

    (:predicates
        (on ?obj - locatable ?loc - location)
        (holding ?arm - locatable ?cupcake - locatable)
        (arm-empty)
        (path ?location1 - location ?location2 - location)
    )

    (:action pick-up
        :parameters (?arm - bot ?cupcake - locatable ?loc - location)
        :precondition (and (on ?arm ?loc) (on ?cupcake ?loc) (arm-empty))
        :effect (and (not (on ?cupcake ?loc)) (holding ?arm ?cupcake) (not (arm-empty)))
    )

    (:action drop
        :parameters (?arm - bot ?cupcake - locatable ?loc - location)
        :precondition (and (on ?arm ?loc) (holding ?arm ?cupcake))
        :effect (and (on ?cupcake ?loc) (arm-empty) (not (holding ?arm ?cupcake)))
    )

    (:action move
        :parameters (?arm - bot ?from - location ?to - location)
        :precondition (and (on ?arm ?from) (path ?from ?to))
        :effect (and (not (on ?arm ?from)) (on ?arm ?to))
    )
)
";

const LETSEAT_PROBLEM: &str = "(define (problem letseat-simple)
    (:domain letseat)
    (:objects
        arm - robot
        cupcake - cupcake
        table - location
        plate - location
    )
    (:init
        (on arm table)
        (on cupcake table)
        (arm-empty)
        (path table plate)
    )
    (:goal
        (on cupcake plate)
    )
)
";

const LETSEAT_PLAN: &str = "(pick-up arm cupcake table)
(move arm table plate)
(drop arm cupcake plate)
";

const DURATIVE_PLAN: &str = "0.000: (grasp-folded-garment towel-01 robot-01) [100.000]
0.000: (grasp-unfolded-garment dish-towel-01 human-01) [100.000]
100.001: (lift dish-towel-01 human-01) [100.000]
100.001: (lift towel-01 robot-01) [100.000]
200.002: (pile-garment towel-01 pile-01 dish-towel robot-01) [100.000]
200.002: (fold-garment dish-towel-01 human-01) [100.000]
300.003: (grasp-folded-garment dish-towel-01 robot-01) [100.000]
300.003: (grasp-unfolded-garment towel-02 human-01) [100.000]
400.004: (lift towel-02 human-01) [100.000]
400.004: (lift dish-towel-01 robot-01) [100.000]
500.005: (pile-garment dish-towel-01 pile-01 dish-towel robot-01) [100.000]
500.005: (fold-garment towel-02 human-01) [100.000]
600.006: (grasp-folded-garment towel-02 robot-01) [100.000]
700.007: (lift towel-02 robot-01) [100.000]
800.008: (pile-garment towel-02 pile-01 dish-towel robot-01) [100.000]
";

const DURATIVE_ACTION: &str = "(:durative-action grasp-unfolded-garment
        :parameters (?g - garment ?h - human)
        :duration (= ?duration 100)
        :condition (and (at start (free-to-manipulate ?h)) (at start (unfolded ?g)) (at start (graspable ?g)))
        :effect (and (at start (not (free-to-manipulate ?h))) (at start (not (graspable ?g))) (at end (grasped-by ?g ?h)))
    )";

fn parse_domain(src: &str) -> Result<Domain, ParserError> {
    let lexemes = lex(src);
    Domain::parse(TokenStream::new(&lexemes))
}

fn parse_problem(src: &str) -> Result<Problem, ParserError> {
    let lexemes = lex(src);
    Problem::parse(TokenStream::new(&lexemes))
}

fn parse_plan(src: &str) -> Result<Plan, ParserError> {
    let lexemes = lex(src);
    Plan::parse(TokenStream::new(&lexemes))
}

fn simple(name: &str) -> Type {
    Type::Simple(name.to_string())
}

fn tp(name: &str, ty: &str) -> TypedParameter {
    TypedParameter { name: name.to_string(), type_: simple(ty) }
}

fn atom(name: &str, args: &[&str]) -> Expression {
    Expression::Atom {
        name: name.to_string(),
        parameters: args.iter().map(|a| Parameter(a.to_string())).collect(),
    }
}

fn not(e: Expression) -> Expression {
    Expression::Not(Box::new(e))
}

fn typedef(name: &str, parent: &str) -> TypeDef {
    TypeDef { name: name.to_string(), parent: parent.to_string() }
}

fn predicate(name: &str, params: Vec<TypedParameter>) -> TypedPredicate {
    TypedPredicate { name: name.to_string(), parameters: params }
}

fn step(name: &str, args: &[&str]) -> Action {
    Action::Simple(SimpleAction::new(
        name.to_string(),
        args.iter().map(|a| Parameter(a.to_string())).collect(),
    ))
}

fn letseat_domain() -> Domain {
    Domain {
        name: "letseat".into(),
        requirements: vec![Requirement::Typing],
        types: vec![
            typedef("location", "object"),
            typedef("locatable", "object"),
            typedef("bot", "locatable"),
            typedef("cupcake", "locatable"),
            typedef("robot", "bot"),
        ],
        constants: vec![],
        predicates: vec![
            predicate("on", vec![tp("?obj", "locatable"), tp("?loc", "location")]),
            predicate("holding", vec![tp("?arm", "locatable"), tp("?cupcake", "locatable")]),
            predicate("arm-empty", vec![]),
            predicate("path", vec![tp("?location1", "location"), tp("?location2", "location")]),
        ],
        functions: vec![],
        actions: vec![
            DomainAction::Simple(DomainSimpleAction {
                name: "pick-up".into(),
                parameters: vec![tp("?arm", "bot"), tp("?cupcake", "locatable"), tp("?loc", "location")],
                precondition: Some(Expression::And(vec![
                    atom("on", &["?arm", "?loc"]),
                    atom("on", &["?cupcake", "?loc"]),
                    atom("arm-empty", &[]),
                ])),
                effect: Expression::And(vec![
                    not(atom("on", &["?cupcake", "?loc"])),
                    atom("holding", &["?arm", "?cupcake"]),
                    not(atom("arm-empty", &[])),
                ]),
            }),
            DomainAction::Simple(DomainSimpleAction {
                name: "drop".into(),
                parameters: vec![tp("?arm", "bot"), tp("?cupcake", "locatable"), tp("?loc", "location")],
                precondition: Some(Expression::And(vec![
                    atom("on", &["?arm", "?loc"]),
                    atom("holding", &["?arm", "?cupcake"]),
                ])),
                effect: Expression::And(vec![
                    atom("on", &["?cupcake", "?loc"]),
                    atom("arm-empty", &[]),
                    not(atom("holding", &["?arm", "?cupcake"])),
                ]),
            }),
            DomainAction::Simple(DomainSimpleAction {
                name: "move".into(),
                parameters: vec![tp("?arm", "bot"), tp("?from", "location"), tp("?to", "location")],
                precondition: Some(Expression::And(vec![
                    atom("on", &["?arm", "?from"]),
                    atom("path", &["?from", "?to"]),
                ])),
                effect: Expression::And(vec![
                    not(atom("on", &["?arm", "?from"])),
                    atom("on", &["?arm", "?to"]),
                ]),
            }),
        ],
    }
}

#[test]
fn test_domain() {
    assert_eq!(parse_domain(LETSEAT_DOMAIN).expect("Failed to parse domain"), letseat_domain());
}

#[test]
fn test_domain_to_pddl() {
    let domain = parse_domain(LETSEAT_DOMAIN).expect("Failed to parse domain");
    let redomain = parse_domain(&domain.to_pddl()).expect("Failed to parse domain again");
    assert_eq!(domain, redomain);
}

#[test]
fn test_problem() {
    let object = |name: &str, ty: &str| Object { name: name.to_string(), type_: simple(ty) };
    assert_eq!(
        parse_problem(LETSEAT_PROBLEM).expect("Failed to parse problem"),
        Problem {
            name: "letseat-simple".into(),
            domain: "letseat".into(),
            objects: vec![
                object("arm", "robot"),
                object("cupcake", "cupcake"),
                object("table", "location"),
                object("plate", "location"),
            ],
            init: vec![
                atom("on", &["arm", "table"]),
                atom("on", &["cupcake", "table"]),
                atom("arm-empty", &[]),
                atom("path", &["table", "plate"]),
            ],
            goal: atom("on", &["cupcake", "plate"]),
        }
    );
}

#[test]
fn test_problem_to_pddl() {
    let problem = parse_problem(LETSEAT_PROBLEM).expect("Failed to parse problem");
    let reproblem = parse_problem(&problem.to_pddl()).expect("Failed to parse problem again");
    assert_eq!(problem, reproblem);
}

#[test]
fn test_plan() {
    assert_eq!(
        parse_plan(LETSEAT_PLAN).expect("Failed to parse plan"),
        Plan(vec![
            step("pick-up", &["arm", "cupcake", "table"]),
            step("move", &["arm", "table", "plate"]),
            step("drop", &["arm", "cupcake", "plate"]),
        ])
    );
}

#[test]
fn test_durative_plan() {
    let plan = parse_plan(DURATIVE_PLAN).expect("Failed to parse plan");
    let expected: Vec<(&str, Vec<&str>, f64)> = vec![
        ("grasp-folded-garment", vec!["towel-01", "robot-01"], 0.0),
        ("grasp-unfolded-garment", vec!["dish-towel-01", "human-01"], 0.0),
        ("lift", vec!["dish-towel-01", "human-01"], 100.001),
        ("lift", vec!["towel-01", "robot-01"], 100.001),
        ("pile-garment", vec!["towel-01", "pile-01", "dish-towel", "robot-01"], 200.002),
        ("fold-garment", vec!["dish-towel-01", "human-01"], 200.002),
        ("grasp-folded-garment", vec!["dish-towel-01", "robot-01"], 300.003),
        ("grasp-unfolded-garment", vec!["towel-02", "human-01"], 300.003),
        ("lift", vec!["towel-02", "human-01"], 400.004),
        ("lift", vec!["dish-towel-01", "robot-01"], 400.004),
        ("pile-garment", vec!["dish-towel-01", "pile-01", "dish-towel", "robot-01"], 500.005),
        ("fold-garment", vec!["towel-02", "human-01"], 500.005),
        ("grasp-folded-garment", vec!["towel-02", "robot-01"], 600.006),
        ("lift", vec!["towel-02", "robot-01"], 700.007),
        ("pile-garment", vec!["towel-02", "pile-01", "dish-towel", "robot-01"], 800.008),
    ];
    assert_eq!(plan.actions().len(), expected.len());
    for (action, (name, args, timestamp)) in plan.actions().iter().zip(expected.iter()) {
        match action {
            Action::Durative(a) => {
                assert_eq!(a.name, *name);
                let got: Vec<&str> = a.parameters.iter().map(|p| p.0.as_str()).collect();
                assert_eq!(&got, args);
                assert_eq!(a.duration.to_pddl().parse::<f64>().unwrap(), 100.0);
                assert_eq!(a.timestamp.to_pddl().parse::<f64>().unwrap(), *timestamp);
            },
            Action::Simple(_) => panic!("expected a timed step"),
        }
    }
}

#[test]
fn test_durative_domain() {
    // Only :strips and :typing are accepted; the durative requirements are refused.
    let src = format!(
        "(define (domain collaborative-cloth-piling)
            (:requirements :strips :typing :durative-actions :numeric-fluents)
            (:predicates (free-to-manipulate ?a - agent))
            {DURATIVE_ACTION})"
    );
    assert!(matches!(
        parse_domain(&src),
        Err(ParserError::UnsupportedRequirement(Requirement::DurativeActions))
    ));
}

#[test]
fn durative_action_structure() {
    let src = format!(
        "(define (domain collaborative-cloth-piling)
            (:requirements :strips :typing)
            (:types robot human - agent agent - physical-object physical-object - object object - entity entity)
            (:predicates (free-to-manipulate ?a - agent) (graspable ?o - object))
            (:functions (grasp-time ?a - agent))
            {DURATIVE_ACTION})"
    );
    let d = parse_domain(&src).expect("Failed to parse domain");
    assert_eq!(d.types.last(), Some(&typedef("entity", "object")));
    assert_eq!(d.functions, vec![predicate("grasp-time", vec![tp("?a", "agent")])]);
    let at_start = |e: Expression| Expression::Duration(DurationInstant::Start, Box::new(e));
    assert_eq!(
        d.actions,
        vec![DomainAction::Durative(DomainDurativeAction {
            name: "grasp-unfolded-garment".into(),
            parameters: vec![tp("?g", "garment"), tp("?h", "human")],
            duration: Expression::BinaryOp(
                BinaryOp::Equal,
                Box::new(atom("?duration", &[])),
                Box::new(Expression::Number(100)),
            ),
            condition: Some(Expression::And(vec![
                at_start(atom("free-to-manipulate", &["?h"])),
                at_start(atom("unfolded", &["?g"])),
                at_start(atom("graspable", &["?g"])),
            ])),
            effect: Expression::And(vec![
                at_start(not(atom("free-to-manipulate", &["?h"]))),
                at_start(not(atom("graspable", &["?g"]))),
                Expression::Duration(DurationInstant::End, Box::new(atom("grasped-by", &["?g", "?h"]))),
            ]),
        })]
    );
    let again = parse_domain(&d.to_pddl()).expect("Failed to parse domain again");
    assert_eq!(d, again);
}
