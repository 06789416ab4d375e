use pddl_parser::domain::domain::Domain;
use pddl_parser::domain::expression::{BinaryOp, Expression};
use pddl_parser::domain::parameter::Parameter;
use pddl_parser::domain::requirement::Requirement;
use pddl_parser::domain::typed_parameter::TypedParameter;
use pddl_parser::domain::typed_predicate::TypedPredicate;
use pddl_parser::domain::typing::Type;
use pddl_parser::error::ParserError;
use pddl_parser::keyword::{LexError, Token};
use pddl_parser::lexer::{lex, Span};
use pddl_parser::plan::action::Action;
use pddl_parser::plan::plan::Plan;
use pddl_parser::problem::Problem;
use pddl_parser::stream::TokenStream;
use pddl_parser::text::integer_text;
use pddl_parser::tokens::{float, Decimal};

fn parse_domain(src: &str) -> Result<Domain, ParserError> {
    let lexemes = lex(src);
    Domain::parse(TokenStream::new(&lexemes))
}

fn parse_expression(src: &str) -> Result<Expression, ParserError> {
    let lexemes = lex(src);
    match Expression::parse_expression(TokenStream::new(&lexemes)) {
        Ok((rest, e)) => {
            assert!(rest.is_empty(), "input left over after {src:?}");
            Ok(e)
        },
        Err(e) => Err(e),
    }
}

fn parse_parameters(src: &str) -> Vec<TypedParameter> {
    let lexemes = lex(src);
    let (rest, params) = TypedParameter::parse_typed_parameters(TokenStream::new(&lexemes)).unwrap();
    assert!(rest.is_empty());
    params
}

fn atom(name: &str, args: &[&str]) -> Expression {
    Expression::Atom {
        name: name.to_string(),
        parameters: args.iter().map(|a| Parameter(a.to_string())).collect(),
    }
}

fn tp(name: &str, ty: &str) -> TypedParameter {
    TypedParameter { name: name.to_string(), type_: Type::Simple(ty.to_string()) }
}

#[test]
fn minimal_typed_domain() {
    let d = parse_domain("(define (domain d) (:requirements :strips :typing) (:predicates (p ?x - foo)) )").unwrap();
    assert_eq!(
        d,
        Domain {
            name: "d".into(),
            requirements: vec![Requirement::Strips, Requirement::Typing],
            types: vec![],
            constants: vec![],
            predicates: vec![TypedPredicate { name: "p".into(), parameters: vec![tp("?x", "foo")] }],
            functions: vec![],
            actions: vec![],
        }
    );
}

#[test]
fn fluents_requirement_is_refused() {
    let r = parse_domain("(define (domain d) (:requirements :strips :typing :fluents) (:predicates (p ?x - foo)) )");
    assert!(matches!(r, Err(ParserError::UnsupportedRequirement(Requirement::Fluents))));
}

#[test]
fn first_unsupported_requirement_is_named() {
    let r = parse_domain("(define (domain d) (:requirements :strips :ADL :fluents) (:predicates))");
    assert!(matches!(r, Err(ParserError::UnsupportedRequirement(Requirement::Adl))));
}

#[test]
fn requirement_gate_comes_before_the_rest() {
    // The body after the requirements is not even well formed.
    let r = parse_domain("(define (domain d) (:requirements :durative-actions) (:predicates (p ?x -)) ");
    assert!(matches!(r, Err(ParserError::UnsupportedRequirement(Requirement::DurativeActions))));
}

#[test]
fn untyped_parameters_are_objects() {
    assert_eq!(parse_parameters("?a ?b"), vec![tp("?a", "object"), tp("?b", "object")]);
}

#[test]
fn typed_group_fans_out() {
    assert_eq!(parse_parameters("?a ?b - foo"), vec![tp("?a", "foo"), tp("?b", "foo")]);
    assert_eq!(
        parse_parameters("?a ?b - foo ?c ?d - (either x y)"),
        vec![
            tp("?a", "foo"),
            tp("?b", "foo"),
            TypedParameter { name: "?c".into(), type_: Type::Either(vec!["x".into(), "y".into()]) },
            TypedParameter { name: "?d".into(), type_: Type::Either(vec!["x".into(), "y".into()]) },
        ]
    );
}

#[test]
fn trailing_tokens_fail_with_expected_end_of_input() {
    let r = parse_domain("(define (domain d) (:predicates)) (extra)");
    assert!(matches!(r, Err(ParserError::ExpectedEndOfInput)));
    let lexemes = lex("(define (problem p) (:domain d) (:objects) (:init) (:goal (done))) more");
    assert!(matches!(Problem::parse(TokenStream::new(&lexemes)), Err(ParserError::ExpectedEndOfInput)));
    let lexemes = lex("(pick-up arm) )");
    assert!(matches!(Plan::parse(TokenStream::new(&lexemes)), Err(ParserError::ExpectedEndOfInput)));
}

#[test]
fn failed_alternative_consumes_nothing() {
    // `and` reads the opening parenthesis and fails on `not`; `not` then starts afresh.
    assert_eq!(parse_expression("(not (p ?x))").unwrap(), Expression::Not(Box::new(atom("p", &["?x"]))));
    // Every earlier alternative reads `(` and fails; the binary operation still sees it.
    assert_eq!(
        parse_expression("(+ 1 (f ?x))").unwrap(),
        Expression::BinaryOp(BinaryOp::Add, Box::new(Expression::Number(1)), Box::new(atom("f", &["?x"])))
    );
}

#[test]
fn forall_expression() {
    assert_eq!(
        parse_expression("(forall (?x - block) (clear ?x))").unwrap(),
        Expression::Forall(vec![tp("?x", "block")], Box::new(atom("clear", &["?x"])))
    );
}

#[test]
fn plan_lines() {
    let lexemes = lex("(pick-up arm cupcake table)");
    let plan = Plan::parse(TokenStream::new(&lexemes)).unwrap();
    assert_eq!(plan.actions().len(), 1);
    assert!(matches!(&plan.actions()[0], Action::Simple(_)));
    assert_eq!(plan.actions()[0].name(), "pick-up");
    assert_eq!(plan.actions()[0].parameters().len(), 3);

    let lexemes = lex("0.000: (grasp-folded-garment towel-01 robot-01) [100.000]");
    let plan = Plan::parse(TokenStream::new(&lexemes)).unwrap();
    match &plan.actions()[0] {
        Action::Durative(a) => {
            assert_eq!(a.parameters.len(), 2);
            assert_eq!(a.duration.to_pddl().parse::<f64>().unwrap(), 100.0);
            assert_eq!(a.timestamp.to_pddl().parse::<f64>().unwrap(), 0.0);
        },
        Action::Simple(_) => panic!("expected a timed step"),
    }
    assert_eq!(plan.to_pddl(), "0.000: (grasp-folded-garment towel-01 robot-01) [100.000]");
}

#[test]
fn plan_does_not_mix_step_kinds() {
    let lexemes = lex("(a x)\n1.0: (b y) [2.0]");
    assert!(matches!(Plan::parse(TokenStream::new(&lexemes)), Err(ParserError::ExpectedEndOfInput)));
}

#[test]
fn empty_plan() {
    let lexemes = lex("; nothing to do\n");
    assert_eq!(Plan::parse(TokenStream::new(&lexemes)).unwrap(), Plan(vec![]));
}

#[test]
fn printer_is_idempotent() {
    let src = "(define (domain d) (:requirements :strips :typing)
        (:types a b - thing)
        (:constants c1 c2 - a)
        (:predicates (p ?x - a) (q))
        (:functions (cost ?x - (either a b)))
        (:action act :parameters (?x ?y - a ?z)
            :precondition (and (p ?x) (not (q)) (forall (?w - b) (p ?w)))
            :effect (and (increase (cost ?x) 1) (assign (cost ?y) (* 2 (cost ?x))) (scale-down (cost ?z) -3))))";
    let d = parse_domain(src).unwrap();
    let text = d.to_pddl();
    let again = parse_domain(&text).unwrap();
    assert_eq!(d, again);
    assert_eq!(again.to_pddl(), text);
}

#[test]
fn expression_texts() {
    let e = parse_expression("(= ?duration (- (f ?a) -5))").unwrap();
    assert_eq!(e.to_pddl(), "(= ?duration (- (f ?a) -5))");
    assert_eq!(parse_expression("(at end (p))").unwrap().to_pddl(), "(at end (p))");
    assert_eq!(parse_expression("(over all (p ?x))").unwrap().to_pddl(), "(over all (p ?x))");
    assert_eq!(parse_expression("(and)").unwrap().to_pddl(), "(and )");
    assert_eq!(
        parse_expression("(forall (?x ?y - t) (decrease (f) 2))").unwrap().to_pddl(),
        "(forall (?x - t ?y - t) (decrease (f) 2))"
    );
}

#[test]
fn type_and_parameter_texts() {
    assert_eq!(Type::Either(vec!["a".into(), "b".into()]).to_pddl(), "(either a b)");
    assert_eq!(tp("?x", "t").to_pddl(), "?x - t");
    assert_eq!(Requirement::Typing.to_pddl(), ":typing");
    assert_eq!(Requirement::list_to_pddl(&vec![Requirement::Strips, Requirement::Typing]), "(:requirements :strips :typing)");
}

#[test]
fn integer_texts() {
    assert_eq!(integer_text(0), "0");
    assert_eq!(integer_text(-5), "-5");
    assert_eq!(integer_text(1234567890), "1234567890");
    assert_eq!(integer_text(i64::MIN), "-9223372036854775808");
    assert_eq!(integer_text(i64::MAX), "9223372036854775807");
}

#[test]
fn lexer_tokens_and_texts() {
    let lexemes = lex("(DEFINE ?Var-1 :Strips 42 -7 3.25 - foo_bar :unknown)");
    let tokens: Vec<Result<Token, LexError>> = lexemes.iter().map(|l| l.token).collect();
    assert_eq!(
        tokens,
        vec![
            Ok(Token::OpenParen),
            Ok(Token::Define),
            Ok(Token::Var),
            Ok(Token::Requirement(Requirement::Strips)),
            Ok(Token::Integer(42)),
            Ok(Token::Integer(-7)),
            Ok(Token::Float),
            Ok(Token::Dash),
            Ok(Token::Id),
            Ok(Token::Colon),
            Ok(Token::Id),
            Ok(Token::CloseParen),
        ]
    );
    let texts: Vec<&str> = lexemes.iter().map(|l| l.text.as_str()).collect();
    assert_eq!(texts, vec!["(", "DEFINE", "?Var-1", ":Strips", "42", "-7", "3.25", "-", "foo_bar", ":", "unknown", ")"]);
    assert_eq!(lexemes[1].span, Span { start: 1, end: 7 });
}

#[test]
fn lexer_skips_comments_and_packages() {
    let lexemes = lex("; comment\n(in-package \"pddl\")\n( in-package foo)(and) ; end");
    let tokens: Vec<Result<Token, LexError>> = lexemes.iter().map(|l| l.token).collect();
    assert_eq!(tokens, vec![Ok(Token::OpenParen), Ok(Token::And), Ok(Token::CloseParen)]);
}

#[test]
fn unrecognized_character_is_a_lexer_error() {
    let lexemes = lex("(p $)");
    assert_eq!(lexemes[2].token, Err(LexError::Unrecognized));
    assert!(matches!(parse_domain("(define (domain $) (:predicates))"), Err(ParserError::LexerError)));
}

#[test]
fn integer_out_of_range() {
    let lexemes = lex("99999999999999999999 -9223372036854775808");
    assert_eq!(lexemes[0].token, Err(LexError::IntegerOutOfRange));
    assert_eq!(lexemes[1].token, Ok(Token::Integer(i64::MIN)));
    assert!(matches!(parse_expression("(= 1 99999999999999999999)"), Err(ParserError::ExpectedInteger)));
}

#[test]
fn expected_identifier_and_token_errors() {
    assert!(matches!(parse_domain("(define (domain ?d) (:predicates))"), Err(ParserError::ExpectedIdentifier)));
    match parse_domain("(define (problem p))") {
        Err(ParserError::ExpectedToken(Token::Domain, span, Some(next))) => {
            assert_eq!(span, Span { start: 9, end: 16 });
            assert_eq!(next[0].1, "problem");
            assert_eq!(next.len(), 4);
        },
        other => panic!("unexpected result {other:?}"),
    }
}

#[test]
fn expected_float() {
    let lexemes = lex("12");
    assert!(matches!(float(TokenStream::new(&lexemes)), Err(ParserError::ExpectedFloat)));
    let lexemes = lex("12.50");
    let (_, d) = float(TokenStream::new(&lexemes)).unwrap();
    assert_eq!(d, Decimal { whole: "12".into(), fraction: "50".into() });
}

#[test]
fn token_stream_moves() {
    let lexemes = lex("(a b)");
    let ts = TokenStream::new(&lexemes);
    assert_eq!(ts.len(), 4);
    assert_eq!(ts.count(), 4);
    assert_eq!(ts.peek(), Some((Ok(Token::OpenParen), "(")));
    let next = ts.advance();
    assert_eq!(next.peek(), Some((Ok(Token::Id), "a")));
    assert_eq!(ts.peek_n(2).unwrap().len(), 2);
    assert_eq!(ts.peek_n(10).unwrap().len(), 4);
    assert_eq!(next.span(), Span { start: 1, end: 2 });
    let end = next.advance().advance().advance();
    assert!(end.is_empty());
    assert_eq!(end.peek(), None);
    assert!(end.peek_n(3).is_none());
    assert!(end.advance().is_empty());
}

#[test]
fn domain_action_accessors() {
    let d = parse_domain(
        "(define (domain d) (:predicates (p ?x) (q ?x))
           (:action a :parameters (?x) :precondition (p ?x) :effect (not (p ?x)))
           (:durative-action b :parameters (?y - t) :duration (= ?duration 3)
              :effect (at end (q ?y))))",
    )
    .unwrap();
    let a = &d.actions[0];
    assert_eq!(a.name(), "a");
    assert_eq!(a.parameters(), &[tp("?x", "object")][..]);
    assert_eq!(a.precondition(), Some(atom("p", &["?x"])));
    assert_eq!(a.effect(), Expression::Not(Box::new(atom("p", &["?x"]))));
    let b = &d.actions[1];
    assert_eq!(b.name(), "b");
    assert_eq!(b.precondition(), None);
    assert_eq!(
        b.to_pddl(),
        "(:durative-action b\n:parameters (?y - t)\n:duration (= ?duration 3)\n:effect \n(at end (q ?y))\n)"
    );
}

#[test]
fn problem_round_trip_with_defaults() {
    let src = "(define (problem p) (:domain d) (:objects a b (:init) (:goal (and)))";
    let lexemes = lex(src);
    assert!(Problem::parse(TokenStream::new(&lexemes)).is_err());
    let src = "(define (problem p) (:domain d) (:objects a b - t c) (:init (loc a) (= (fuel a) 4)) (:goal (and (loc b))))";
    let lexemes = lex(src);
    let p = Problem::parse(TokenStream::new(&lexemes)).unwrap();
    assert_eq!(p.objects[0].type_, Type::Simple("t".into()));
    assert_eq!(p.objects[2].type_, Type::Simple("object".into()));
    let text = p.to_pddl();
    assert_eq!(
        text,
        "(define (problem p)\n(:domain d)\n(:objects\na - t\nb - t\nc - object\n)\n(:init\n(loc a)\n(= (fuel a) 4)\n)\n(:goal\n(and (loc b))\n)\n)"
    );
    let lexemes = lex(&text);
    assert_eq!(Problem::parse(TokenStream::new(&lexemes)).unwrap(), p);
}

#[test]
fn default_type_is_object() {
    assert_eq!(Type::default(), Type::Simple("object".into()));
    assert_eq!(Type::object().to_pddl(), "object");
}
