use vstd::prelude::*;

use crate::domain::parameter::{is_name_at, param_texts, params_spec, Parameter};
use crate::domain::typed_parameter::{
    groups_spec, lemma_groups_progress, typed_list_text, typed_views, TypedModel, TypedParameter,
};
use crate::text::{chars_of, int_text, integer_text, join};
use crate::error::ParserError;
use crate::keyword::Token;
use crate::lexer::Lexeme;
use crate::stream::{remaining, text_at, token_at, TokenStream};
use crate::tokens::{expect, expected_at, failure, id, integer, parsed, var, ParseResult};

verus! {

/// A binary operator of a numeric expression or a comparison.
#[derive(Clone, Copy, Debug, PartialEq, Eq, Structural, Hash)]
pub enum BinaryOp {
    /// `+`
    Add,
    /// `-`
    Subtract,
    /// `*`
    Multiply,
    /// `/`
    Divide,
    /// `=`
    Equal,
}

/// When a condition or an effect of a durative action holds.
#[derive(Clone, Copy, Debug, PartialEq, Eq, Structural, Hash)]
pub enum DurationInstant {
    /// `at start`
    Start,
    /// `at end`
    End,
    /// `over all`
    All,
}

/// A logical, numeric or temporal expression.
#[derive(Debug, PartialEq, Eq, Hash)]
pub enum Expression {
    /// A predicate or function applied to arguments, `(on ?x table)`; also a bare
    /// variable, with no arguments, where a numeric operand is read.
    Atom {
        /// The name.
        name: String,
        /// The arguments.
        parameters: Vec<Parameter>,
    },
    /// `(and ...)`
    And(Vec<Expression>),
    /// `(not ...)`
    Not(Box<Expression>),
    /// `(assign a b)`
    Assign(Box<Expression>, Box<Expression>),
    /// `(increase a b)`
    Increase(Box<Expression>, Box<Expression>),
    /// `(decrease a b)`
    Decrease(Box<Expression>, Box<Expression>),
    /// `(scale-up a b)`
    ScaleUp(Box<Expression>, Box<Expression>),
    /// `(scale-down a b)`
    ScaleDown(Box<Expression>, Box<Expression>),
    /// `(op a b)` for `+ - * / =`
    BinaryOp(BinaryOp, Box<Expression>, Box<Expression>),
    /// An integer.
    Number(i64),
    /// `(forall (parameters) body)`
    Forall(Vec<TypedParameter>, Box<Expression>),
    /// `(at start e)`, `(at end e)` or `(over all e)`
    Duration(DurationInstant, Box<Expression>),
}

/// A goal-like expression over typed predicates: a predicate applied to arguments,
/// a conjunction or a negation.
#[derive(Debug, PartialEq, Eq, Hash)]
pub enum TypedExpression {
    /// A predicate applied to arguments.
    Predicate {
        /// The predicate's name.
        name: String,
        /// The arguments.
        parameters: Vec<Parameter>,
    },
    /// `(and ...)`
    And(Vec<Expression>),
    /// `(not ...)`
    Not(Box<Expression>),
}

/// What an [`Expression`] denotes.
pub enum ExprModel {
    Atom(Seq<char>, Seq<Seq<char>>),
    And(Seq<ExprModel>),
    Not(Box<ExprModel>),
    Assign(Box<ExprModel>, Box<ExprModel>),
    Increase(Box<ExprModel>, Box<ExprModel>),
    Decrease(Box<ExprModel>, Box<ExprModel>),
    ScaleUp(Box<ExprModel>, Box<ExprModel>),
    ScaleDown(Box<ExprModel>, Box<ExprModel>),
    BinaryOp(BinaryOp, Box<ExprModel>, Box<ExprModel>),
    Number(i64),
    Forall(Seq<TypedModel>, Box<ExprModel>),
    Duration(DurationInstant, Box<ExprModel>),
}

pub open spec fn expr_model(e: Expression) -> ExprModel
    decreases e,
{
    match e {
        Expression::Atom { name, parameters } => ExprModel::Atom(name@, param_texts(parameters@)),
        Expression::And(v) => ExprModel::And(exprs_model(v@)),
        Expression::Not(a) => ExprModel::Not(Box::new(expr_model(*a))),
        Expression::Assign(a, b) => ExprModel::Assign(
            Box::new(expr_model(*a)),
            Box::new(expr_model(*b)),
        ),
        Expression::Increase(a, b) => ExprModel::Increase(
            Box::new(expr_model(*a)),
            Box::new(expr_model(*b)),
        ),
        Expression::Decrease(a, b) => ExprModel::Decrease(
            Box::new(expr_model(*a)),
            Box::new(expr_model(*b)),
        ),
        Expression::ScaleUp(a, b) => ExprModel::ScaleUp(
            Box::new(expr_model(*a)),
            Box::new(expr_model(*b)),
        ),
        Expression::ScaleDown(a, b) => ExprModel::ScaleDown(
            Box::new(expr_model(*a)),
            Box::new(expr_model(*b)),
        ),
        Expression::BinaryOp(op, a, b) => ExprModel::BinaryOp(
            op,
            Box::new(expr_model(*a)),
            Box::new(expr_model(*b)),
        ),
        Expression::Number(n) => ExprModel::Number(n),
        Expression::Forall(ps, a) => ExprModel::Forall(typed_views(ps@), Box::new(expr_model(*a))),
        Expression::Duration(i, a) => ExprModel::Duration(i, Box::new(expr_model(*a))),
    }
}

pub open spec fn exprs_model(s: Seq<Expression>) -> Seq<ExprModel>
    decreases s,
{
    if s.len() == 0 {
        seq![]
    } else {
        exprs_model(s.drop_last()).push(expr_model(s.last()))
    }
}

impl View for Expression {
    type V = ExprModel;

    open spec fn view(&self) -> ExprModel {
        expr_model(*self)
    }
}

/// An integer at `p`.
pub open spec fn number_spec(l: Seq<Lexeme>, p: int) -> Option<(int, ExprModel)> {
    match token_at(l, p) {
        Some(Token::Integer(v)) => Some((p + 1, ExprModel::Number(v))),
        _ => None,
    }
}

/// A bare variable at `p`, read as an atom without arguments.
pub open spec fn var_spec(l: Seq<Lexeme>, p: int) -> Option<(int, ExprModel)> {
    if token_at(l, p) == Some(Token::Var) {
        Some((p + 1, ExprModel::Atom(text_at(l, p), seq![])))
    } else {
        None
    }
}

/// `(name arguments)` at `p`, the name an identifier.
pub open spec fn atom_spec(l: Seq<Lexeme>, p: int) -> Option<(int, ExprModel)> {
    if token_at(l, p) == Some(Token::OpenParen) && token_at(l, p + 1) == Some(Token::Id) {
        let (q, args) = params_spec(l, p + 2);
        if token_at(l, q) == Some(Token::CloseParen) {
            Some((q + 1, ExprModel::Atom(text_at(l, p + 1), args)))
        } else {
            None
        }
    } else {
        None
    }
}

/// The binary operator at `p`.
pub open spec fn binary_op_spec(l: Seq<Lexeme>, p: int) -> Option<BinaryOp> {
    match token_at(l, p) {
        Some(Token::Plus) => Some(BinaryOp::Add),
        Some(Token::Dash) => Some(BinaryOp::Subtract),
        Some(Token::Times) => Some(BinaryOp::Multiply),
        Some(Token::Divide) => Some(BinaryOp::Divide),
        Some(Token::Equal) => Some(BinaryOp::Equal),
        _ => None,
    }
}

/// An operand of a numeric form at `p`: the first of a number, a binary operation and
/// an atom that reads there; then, where `with_var` holds, a bare variable.
pub open spec fn operand_spec(l: Seq<Lexeme>, p: int, with_var: bool) -> Option<(int, ExprModel)>
    decreases remaining(l, p), 2nat,
{
    if number_spec(l, p) is Some {
        number_spec(l, p)
    } else if comparison_spec(l, p) is Some {
        comparison_spec(l, p)
    } else if atom_spec(l, p) is Some {
        atom_spec(l, p)
    } else if with_var {
        var_spec(l, p)
    } else {
        None
    }
}

/// `(op a b)` at `p`, each operand a number, a binary operation, an atom or a variable.
pub open spec fn comparison_spec(l: Seq<Lexeme>, p: int) -> Option<(int, ExprModel)>
    decreases remaining(l, p), 1nat,
{
    if token_at(l, p) == Some(Token::OpenParen) && binary_op_spec(l, p + 1) is Some {
        match operand_spec(l, p + 2, true) {
            Some((q, a)) => if remaining(l, q) < remaining(l, p) {
                match operand_spec(l, q, true) {
                    Some((r, b)) => if token_at(l, r) == Some(Token::CloseParen) {
                        Some(
                            (
                                r + 1,
                                ExprModel::BinaryOp(
                                    binary_op_spec(l, p + 1)->0,
                                    Box::new(a),
                                    Box::new(b),
                                ),
                            ),
                        )
                    } else {
                        None
                    },
                    None => None,
                }
            } else {
                None
            },
            None => None,
        }
    } else {
        None
    }
}

/// The assignment form with keyword `kw` over `a` and `b`.
pub open spec fn assign_model(kw: Token, a: ExprModel, b: ExprModel) -> ExprModel {
    match kw {
        Token::Assign => ExprModel::Assign(Box::new(a), Box::new(b)),
        Token::ScaleUp => ExprModel::ScaleUp(Box::new(a), Box::new(b)),
        Token::ScaleDown => ExprModel::ScaleDown(Box::new(a), Box::new(b)),
        Token::Increase => ExprModel::Increase(Box::new(a), Box::new(b)),
        _ => ExprModel::Decrease(Box::new(a), Box::new(b)),
    }
}

/// The error of a binary operation that does not read at `p`: that of the first part
/// that fails. A missing operand fails as a missing variable, the last alternative of
/// an operand.
pub open spec fn comparison_error(l: Seq<Lexeme>, p: int, e: ParserError) -> bool {
    if token_at(l, p) != Some(Token::OpenParen) {
        expected_at(l, p, Token::OpenParen, e)
    } else if binary_op_spec(l, p + 1) is None {
        expected_at(l, p + 1, Token::Equal, e)
    } else {
        match operand_spec(l, p + 2, true) {
            None => failure(l, p + 2, e, ParserError::ExpectedIdentifier),
            Some((q, _)) => match operand_spec(l, q, true) {
                None => failure(l, q, e, ParserError::ExpectedIdentifier),
                Some((r, _)) => expected_at(l, r, Token::CloseParen, e),
            },
        }
    }
}

/// `(kw a b)` at `p` for an assignment keyword `kw`, each operand a number, a binary
/// operation or an atom.
pub open spec fn assign_spec(l: Seq<Lexeme>, p: int, kw: Token) -> Option<(int, ExprModel)>
    decreases remaining(l, p), 1nat,
{
    if token_at(l, p) == Some(Token::OpenParen) && token_at(l, p + 1) == Some(kw) {
        match operand_spec(l, p + 2, false) {
            Some((q, a)) => if remaining(l, q) < remaining(l, p) {
                match operand_spec(l, q, false) {
                    Some((r, b)) => if token_at(l, r) == Some(Token::CloseParen) {
                        Some((r + 1, assign_model(kw, a, b)))
                    } else {
                        None
                    },
                    None => None,
                }
            } else {
                None
            },
            None => None,
        }
    } else {
        None
    }
}

/// The first assignment form, in the order assign, scale-up, scale-down, increase,
/// decrease, that reads at `p`.
pub open spec fn assignment_spec(l: Seq<Lexeme>, p: int) -> Option<(int, ExprModel)>
    decreases remaining(l, p), 2nat,
{
    if assign_spec(l, p, Token::Assign) is Some {
        assign_spec(l, p, Token::Assign)
    } else if assign_spec(l, p, Token::ScaleUp) is Some {
        assign_spec(l, p, Token::ScaleUp)
    } else if assign_spec(l, p, Token::ScaleDown) is Some {
        assign_spec(l, p, Token::ScaleDown)
    } else if assign_spec(l, p, Token::Increase) is Some {
        assign_spec(l, p, Token::Increase)
    } else {
        assign_spec(l, p, Token::Decrease)
    }
}

/// The instant named by the two tokens at `p`: `at start`, `at end` or `over all`.
pub open spec fn instant_spec(l: Seq<Lexeme>, p: int) -> Option<DurationInstant> {
    if token_at(l, p) == Some(Token::At) && token_at(l, p + 1) == Some(Token::Start) {
        Some(DurationInstant::Start)
    } else if token_at(l, p) == Some(Token::At) && token_at(l, p + 1) == Some(Token::End) {
        Some(DurationInstant::End)
    } else if token_at(l, p) == Some(Token::Over) && token_at(l, p + 1) == Some(Token::All) {
        Some(DurationInstant::All)
    } else {
        None
    }
}

/// `(at start e)`, `(at end e)` or `(over all e)` at `p`.
pub open spec fn duration_spec(l: Seq<Lexeme>, p: int) -> Option<(int, ExprModel)>
    decreases remaining(l, p), 1nat,
{
    if token_at(l, p) == Some(Token::OpenParen) && instant_spec(l, p + 1) is Some {
        match expr_spec(l, p + 3) {
            Some((q, e)) => if token_at(l, q) == Some(Token::CloseParen) {
                Some((q + 1, ExprModel::Duration(instant_spec(l, p + 1)->0, Box::new(e))))
            } else {
                None
            },
            None => None,
        }
    } else {
        None
    }
}

/// `(forall (parameters) e)` at `p`.
pub open spec fn forall_spec(l: Seq<Lexeme>, p: int) -> Option<(int, ExprModel)>
    decreases remaining(l, p), 1nat,
{
    if token_at(l, p) == Some(Token::OpenParen) && token_at(l, p + 1) == Some(Token::Forall)
        && token_at(l, p + 2) == Some(Token::OpenParen) {
        let (q, ps) = groups_spec(l, p + 3, Token::Var, false);
        if token_at(l, q) == Some(Token::CloseParen) && remaining(l, q + 1) < remaining(l, p) {
            match expr_spec(l, q + 1) {
                Some((r, e)) => if token_at(l, r) == Some(Token::CloseParen) {
                    Some((r + 1, ExprModel::Forall(ps, Box::new(e))))
                } else {
                    None
                },
                None => None,
            }
        } else {
            None
        }
    } else {
        None
    }
}

/// `(not e)` at `p`.
pub open spec fn not_spec(l: Seq<Lexeme>, p: int) -> Option<(int, ExprModel)>
    decreases remaining(l, p), 1nat,
{
    if token_at(l, p) == Some(Token::OpenParen) && token_at(l, p + 1) == Some(Token::Not) {
        match expr_spec(l, p + 2) {
            Some((q, e)) => if token_at(l, q) == Some(Token::CloseParen) {
                Some((q + 1, ExprModel::Not(Box::new(e))))
            } else {
                None
            },
            None => None,
        }
    } else {
        None
    }
}

/// `(and e ...)` at `p`.
pub open spec fn and_spec(l: Seq<Lexeme>, p: int) -> Option<(int, ExprModel)>
    decreases remaining(l, p), 1nat,
{
    if token_at(l, p) == Some(Token::OpenParen) && token_at(l, p + 1) == Some(Token::And) {
        let (q, es) = exprs_spec(l, p + 2);
        if token_at(l, q) == Some(Token::CloseParen) {
            Some((q + 1, ExprModel::And(es)))
        } else {
            None
        }
    } else {
        None
    }
}

/// As many expressions as follow one another from `p`.
pub open spec fn exprs_spec(l: Seq<Lexeme>, p: int) -> (int, Seq<ExprModel>)
    decreases remaining(l, p), 3nat,
{
    match expr_spec(l, p) {
        Some((q, e)) => if remaining(l, q) < remaining(l, p) {
            let (r, es) = exprs_spec(l, q);
            (r, seq![e] + es)
        } else {
            (p, seq![])
        },
        None => (p, seq![]),
    }
}

/// An expression at `p`: the first of these forms that reads there, in this order:
/// `and`, `not`, an atom, an assignment form, a duration, `forall`, a binary
/// operation.
pub open spec fn expr_spec(l: Seq<Lexeme>, p: int) -> Option<(int, ExprModel)>
    decreases remaining(l, p), 2nat,
{
    if and_spec(l, p) is Some {
        and_spec(l, p)
    } else if not_spec(l, p) is Some {
        not_spec(l, p)
    } else if atom_spec(l, p) is Some {
        atom_spec(l, p)
    } else if assignment_spec(l, p) is Some {
        assignment_spec(l, p)
    } else if duration_spec(l, p) is Some {
        duration_spec(l, p)
    } else if forall_spec(l, p) is Some {
        forall_spec(l, p)
    } else {
        comparison_spec(l, p)
    }
}

impl Expression {
    /// Reads an integer.
    fn parse_number<'a>(ts: TokenStream<'a>) -> (r: ParseResult<'a, Expression>)
        ensures
            parsed(r, ts, number_spec(ts.toks(), ts.pos as int)),
    {
        match integer(ts) {
            Ok((n, v)) => Ok((n, Expression::Number(v))),
            Err(e) => Err(e),
        }
    }

    /// Reads a bare variable as an atom without arguments.
    fn parse_var<'a>(ts: TokenStream<'a>) -> (r: ParseResult<'a, Expression>)
        ensures
            parsed(r, ts, var_spec(ts.toks(), ts.pos as int)),
            r matches Err(e) ==> failure(ts.toks(), ts.pos as int, e, ParserError::ExpectedIdentifier),
    {
        match var(ts) {
            Ok((n, name)) => {
                let parameters: Vec<Parameter> = Vec::new();
                proof {
                    assert(param_texts(parameters@) =~= seq![]);
                }
                Ok((n, Expression::Atom { name, parameters }))
            },
            Err(e) => Err(e),
        }
    }

    /// Reads `(name arguments)`.
    fn parse_atom<'a>(ts: TokenStream<'a>) -> (r: ParseResult<'a, Expression>)
        ensures
            parsed(r, ts, atom_spec(ts.toks(), ts.pos as int)),
    {
        let n = match expect(ts, Token::OpenParen) {
            Ok(n) => n,
            Err(e) => return Err(e),
        };
        let (n, name) = match id(n) {
            Ok(x) => x,
            Err(e) => return Err(e),
        };
        let (n, parameters) = match Parameter::parse_parameters(n) {
            Ok(x) => x,
            Err(e) => return Err(e),
        };
        match expect(n, Token::CloseParen) {
            Ok(n) => Ok((n, Expression::Atom { name, parameters })),
            Err(e) => Err(e),
        }
    }

    /// Reads one of `+ - * / =`.
    fn parse_binary_operator<'a>(ts: TokenStream<'a>) -> (r: ParseResult<'a, BinaryOp>)
        ensures
            match r {
                Ok((n, op)) => binary_op_spec(ts.toks(), ts.pos as int) == Some(op) && n.lexemes
                    == ts.lexemes && n.pos == ts.pos + 1,
                Err(e) => binary_op_spec(ts.toks(), ts.pos as int) is None && expected_at(
                    ts.toks(),
                    ts.pos as int,
                    Token::Equal,
                    e,
                ),
            },
    {
        match expect(ts, Token::Plus) {
            Ok(n) => {
                return Ok((n, BinaryOp::Add));
            },
            Err(_) => {},
        }
        match expect(ts, Token::Dash) {
            Ok(n) => {
                return Ok((n, BinaryOp::Subtract));
            },
            Err(_) => {},
        }
        match expect(ts, Token::Times) {
            Ok(n) => {
                return Ok((n, BinaryOp::Multiply));
            },
            Err(_) => {},
        }
        match expect(ts, Token::Divide) {
            Ok(n) => {
                return Ok((n, BinaryOp::Divide));
            },
            Err(_) => {},
        }
        match expect(ts, Token::Equal) {
            Ok(n) => Ok((n, BinaryOp::Equal)),
            Err(e) => Err(e),
        }
    }

    /// Reads an operand of a numeric form: a number, a binary operation, an atom, or,
    /// where `with_var` holds, a bare variable.
    fn parse_operand<'a>(ts: TokenStream<'a>, with_var: bool) -> (r: ParseResult<'a, Expression>)
        ensures
            parsed(r, ts, operand_spec(ts.toks(), ts.pos as int, with_var)),
            with_var ==> (r matches Err(e) ==> failure(
                ts.toks(),
                ts.pos as int,
                e,
                ParserError::ExpectedIdentifier,
            )),
        decreases remaining(ts.toks(), ts.pos as int), 2nat,
    {
        match Self::parse_number(ts) {
            Ok(x) => {
                return Ok(x);
            },
            Err(_) => {},
        }
        match Self::parse_comparison(ts) {
            Ok(x) => {
                return Ok(x);
            },
            Err(_) => {},
        }
        if with_var {
            match Self::parse_atom(ts) {
                Ok(x) => Ok(x),
                Err(_) => Self::parse_var(ts),
            }
        } else {
            Self::parse_atom(ts)
        }
    }

    /// Reads `(op a b)` for `op` one of `+ - * / =`.
    fn parse_comparison<'a>(ts: TokenStream<'a>) -> (r: ParseResult<'a, Expression>)
        ensures
            parsed(r, ts, comparison_spec(ts.toks(), ts.pos as int)),
            r matches Err(e) ==> comparison_error(ts.toks(), ts.pos as int, e),
        decreases remaining(ts.toks(), ts.pos as int), 1nat,
    {
        let n = match expect(ts, Token::OpenParen) {
            Ok(n) => n,
            Err(e) => return Err(e),
        };
        let (n, op) = match Self::parse_binary_operator(n) {
            Ok(x) => x,
            Err(e) => return Err(e),
        };
        let (n, a) = match Self::parse_operand(n, true) {
            Ok(x) => x,
            Err(e) => return Err(e),
        };
        proof {
            lemma_operand_progress(ts.toks(), ts.pos + 2, true);
        }
        let (n, b) = match Self::parse_operand(n, true) {
            Ok(x) => x,
            Err(e) => return Err(e),
        };
        match expect(n, Token::CloseParen) {
            Ok(n) => Ok((n, Expression::BinaryOp(op, Box::new(a), Box::new(b)))),
            Err(e) => Err(e),
        }
    }

    /// Reads `(kw a b)` for the assignment keyword `kw`.
    fn parse_assign<'a>(ts: TokenStream<'a>, kw: Token) -> (r: ParseResult<'a, Expression>)
        ensures
            parsed(r, ts, assign_spec(ts.toks(), ts.pos as int, kw)),
        decreases remaining(ts.toks(), ts.pos as int), 1nat,
    {
        let n = match expect(ts, Token::OpenParen) {
            Ok(n) => n,
            Err(e) => return Err(e),
        };
        let n = match expect(n, kw) {
            Ok(n) => n,
            Err(e) => return Err(e),
        };
        let (n, a) = match Self::parse_operand(n, false) {
            Ok(x) => x,
            Err(e) => return Err(e),
        };
        proof {
            lemma_operand_progress(ts.toks(), ts.pos + 2, false);
        }
        let (n, b) = match Self::parse_operand(n, false) {
            Ok(x) => x,
            Err(e) => return Err(e),
        };
        let n = match expect(n, Token::CloseParen) {
            Ok(n) => n,
            Err(e) => return Err(e),
        };
        let (a, b) = (Box::new(a), Box::new(b));
        let e = match kw {
            Token::Assign => Expression::Assign(a, b),
            Token::ScaleUp => Expression::ScaleUp(a, b),
            Token::ScaleDown => Expression::ScaleDown(a, b),
            Token::Increase => Expression::Increase(a, b),
            _ => Expression::Decrease(a, b),
        };
        Ok((n, e))
    }

    /// Reads an assignment form: assign, scale-up, scale-down, increase or decrease.
    fn parse_assignment<'a>(ts: TokenStream<'a>) -> (r: ParseResult<'a, Expression>)
        ensures
            parsed(r, ts, assignment_spec(ts.toks(), ts.pos as int)),
        decreases remaining(ts.toks(), ts.pos as int), 2nat,
    {
        match Self::parse_assign(ts, Token::Assign) {
            Ok(x) => {
                return Ok(x);
            },
            Err(_) => {},
        }
        match Self::parse_assign(ts, Token::ScaleUp) {
            Ok(x) => {
                return Ok(x);
            },
            Err(_) => {},
        }
        match Self::parse_assign(ts, Token::ScaleDown) {
            Ok(x) => {
                return Ok(x);
            },
            Err(_) => {},
        }
        match Self::parse_assign(ts, Token::Increase) {
            Ok(x) => {
                return Ok(x);
            },
            Err(_) => {},
        }
        Self::parse_assign(ts, Token::Decrease)
    }

    /// Reads `(at start e)`, `(at end e)` or `(over all e)`.
    fn parse_duration<'a>(ts: TokenStream<'a>) -> (r: ParseResult<'a, Expression>)
        ensures
            parsed(r, ts, duration_spec(ts.toks(), ts.pos as int)),
        decreases remaining(ts.toks(), ts.pos as int), 1nat,
    {
        let n = match expect(ts, Token::OpenParen) {
            Ok(n) => n,
            Err(e) => return Err(e),
        };
        let (n, instant) = match expect(n, Token::At) {
            Ok(m) => match expect(m, Token::Start) {
                Ok(k) => (k, DurationInstant::Start),
                Err(_) => match expect(m, Token::End) {
                    Ok(k) => (k, DurationInstant::End),
                    Err(e) => return Err(e),
                },
            },
            Err(_) => match expect(n, Token::Over) {
                Ok(m) => match expect(m, Token::All) {
                    Ok(k) => (k, DurationInstant::All),
                    Err(e) => return Err(e),
                },
                Err(e) => return Err(e),
            },
        };
        let (n, e) = match Self::parse_expression(n) {
            Ok(x) => x,
            Err(e) => return Err(e),
        };
        match expect(n, Token::CloseParen) {
            Ok(n) => Ok((n, Expression::Duration(instant, Box::new(e)))),
            Err(e) => Err(e),
        }
    }

    /// Reads `(forall (parameters) e)`.
    fn parse_forall<'a>(ts: TokenStream<'a>) -> (r: ParseResult<'a, Expression>)
        ensures
            parsed(r, ts, forall_spec(ts.toks(), ts.pos as int)),
        decreases remaining(ts.toks(), ts.pos as int), 1nat,
    {
        let n = match expect(ts, Token::OpenParen) {
            Ok(n) => n,
            Err(e) => return Err(e),
        };
        let n = match expect(n, Token::Forall) {
            Ok(n) => n,
            Err(e) => return Err(e),
        };
        let n = match expect(n, Token::OpenParen) {
            Ok(n) => n,
            Err(e) => return Err(e),
        };
        let (n, ps) = TypedParameter::parse_groups(n, Token::Var, false);
        proof {
            lemma_groups_progress(ts.toks(), ts.pos + 3, Token::Var, false);
        }
        let n = match expect(n, Token::CloseParen) {
            Ok(n) => n,
            Err(e) => return Err(e),
        };
        let (n, e) = match Self::parse_expression(n) {
            Ok(x) => x,
            Err(e) => return Err(e),
        };
        match expect(n, Token::CloseParen) {
            Ok(n) => Ok((n, Expression::Forall(ps, Box::new(e)))),
            Err(e) => Err(e),
        }
    }

    /// Reads `(not e)`.
    fn parse_not<'a>(ts: TokenStream<'a>) -> (r: ParseResult<'a, Expression>)
        ensures
            parsed(r, ts, not_spec(ts.toks(), ts.pos as int)),
        decreases remaining(ts.toks(), ts.pos as int), 1nat,
    {
        let n = match expect(ts, Token::OpenParen) {
            Ok(n) => n,
            Err(e) => return Err(e),
        };
        let n = match expect(n, Token::Not) {
            Ok(n) => n,
            Err(e) => return Err(e),
        };
        let (n, e) = match Self::parse_expression(n) {
            Ok(x) => x,
            Err(e) => return Err(e),
        };
        match expect(n, Token::CloseParen) {
            Ok(n) => Ok((n, Expression::Not(Box::new(e)))),
            Err(e) => Err(e),
        }
    }

    /// Reads `(and e ...)`.
    fn parse_and<'a>(ts: TokenStream<'a>) -> (r: ParseResult<'a, Expression>)
        ensures
            parsed(r, ts, and_spec(ts.toks(), ts.pos as int)),
        decreases remaining(ts.toks(), ts.pos as int), 1nat,
    {
        let n = match expect(ts, Token::OpenParen) {
            Ok(n) => n,
            Err(e) => return Err(e),
        };
        let n = match expect(n, Token::And) {
            Ok(n) => n,
            Err(e) => return Err(e),
        };
        let (n, es) = Self::parse_expressions(n);
        match expect(n, Token::CloseParen) {
            Ok(n) => Ok((n, Expression::And(es))),
            Err(e) => Err(e),
        }
    }

    /// Reads as many expressions as follow one another.
    pub fn parse_expressions<'a>(ts: TokenStream<'a>) -> (r: (TokenStream<'a>, Vec<Expression>))
        ensures
            r.0.lexemes == ts.lexemes,
            (r.0.pos as int, exprs_model(r.1@)) == exprs_spec(ts.toks(), ts.pos as int),
        decreases remaining(ts.toks(), ts.pos as int), 3nat,
    {
        let mut cur = ts;
        let mut out: Vec<Expression> = Vec::new();
        loop
            invariant
                cur.lexemes == ts.lexemes,
                remaining(ts.toks(), cur.pos as int) <= remaining(ts.toks(), ts.pos as int),
                ({
                    let (q, rest) = exprs_spec(ts.toks(), cur.pos as int);
                    exprs_spec(ts.toks(), ts.pos as int) == (q, exprs_model(out@) + rest)
                }),
            decreases remaining(ts.toks(), cur.pos as int),
        {
            match Self::parse_expression(cur) {
                Ok((next, e)) => {
                    if next.len() >= cur.len() {
                        assert(exprs_model(out@) + seq![] =~= exprs_model(out@));
                        return (cur, out);
                    }
                    let ghost before = out@;
                    let ghost em = e@;
                    out.push(e);
                    proof {
                        assert(out@.drop_last() =~= before);
                        assert(exprs_model(out@) == exprs_model(before).push(em));
                        let (q, rest) = exprs_spec(ts.toks(), next.pos as int);
                        assert(exprs_model(before) + (seq![em] + rest) =~= exprs_model(out@)
                            + rest);
                    }
                    cur = next;
                },
                Err(_) => {
                    assert(exprs_model(out@) + seq![] =~= exprs_model(out@));
                    return (cur, out);
                },
            }
        }
    }

    /// Reads an expression: the first of `and`, `not`, an atom, an assignment form, a
    /// duration, `forall` and a binary operation that reads at the cursor. Where none
    /// does, the error is that of the last one tried, the binary operation.
    pub fn parse_expression<'a>(ts: TokenStream<'a>) -> (r: ParseResult<'a, Expression>)
        ensures
            parsed(r, ts, expr_spec(ts.toks(), ts.pos as int)),
            r matches Err(e) ==> comparison_error(ts.toks(), ts.pos as int, e),
        decreases remaining(ts.toks(), ts.pos as int), 2nat,
    {
        match Self::parse_and(ts) {
            Ok(x) => {
                return Ok(x);
            },
            Err(_) => {},
        }
        match Self::parse_not(ts) {
            Ok(x) => {
                return Ok(x);
            },
            Err(_) => {},
        }
        match Self::parse_atom(ts) {
            Ok(x) => {
                return Ok(x);
            },
            Err(_) => {},
        }
        match Self::parse_assignment(ts) {
            Ok(x) => {
                return Ok(x);
            },
            Err(_) => {},
        }
        match Self::parse_duration(ts) {
            Ok(x) => {
                return Ok(x);
            },
            Err(_) => {},
        }
        match Self::parse_forall(ts) {
            Ok(x) => {
                return Ok(x);
            },
            Err(_) => {},
        }
        Self::parse_comparison(ts)
    }
}

/// The text of a binary operator.
pub open spec fn binary_op_text(op: BinaryOp) -> Seq<char> {
    match op {
        BinaryOp::Add => "+"@,
        BinaryOp::Subtract => "-"@,
        BinaryOp::Multiply => "*"@,
        BinaryOp::Divide => "/"@,
        BinaryOp::Equal => "="@,
    }
}

/// The text of an instant: `at start`, `at end` or `over all`.
pub open spec fn instant_text(i: DurationInstant) -> Seq<char> {
    match i {
        DurationInstant::Start => "at start"@,
        DurationInstant::End => "at end"@,
        DurationInstant::All => "over all"@,
    }
}

/// The text of an atom: a variable without arguments stands bare; otherwise the name
/// and the arguments, in parentheses, with a space between each two.
pub open spec fn atom_text(name: Seq<char>, args: Seq<Seq<char>>) -> Seq<char> {
    if args.len() == 0 && name.len() > 0 && name[0] == '?' {
        name
    } else {
        "("@ + join(seq![name] + args, " "@) + ")"@
    }
}

/// `(head a b)`.
pub open spec fn form_text(head: Seq<char>, a: Seq<char>, b: Seq<char>) -> Seq<char> {
    "("@ + head + " "@ + a + " "@ + b + ")"@
}

/// The text of an expression.
pub open spec fn expr_text(e: ExprModel) -> Seq<char>
    decreases e,
{
    match e {
        ExprModel::Atom(name, args) => atom_text(name, args),
        ExprModel::And(es) => "(and "@ + exprs_text(es) + ")"@,
        ExprModel::Not(a) => "(not "@ + expr_text(*a) + ")"@,
        ExprModel::Assign(a, b) => form_text("assign"@, expr_text(*a), expr_text(*b)),
        ExprModel::Increase(a, b) => form_text("increase"@, expr_text(*a), expr_text(*b)),
        ExprModel::Decrease(a, b) => form_text("decrease"@, expr_text(*a), expr_text(*b)),
        ExprModel::ScaleUp(a, b) => form_text("scale-up"@, expr_text(*a), expr_text(*b)),
        ExprModel::ScaleDown(a, b) => form_text("scale-down"@, expr_text(*a), expr_text(*b)),
        ExprModel::BinaryOp(op, a, b) => form_text(binary_op_text(op), expr_text(*a), expr_text(*b)),
        ExprModel::Number(n) => int_text(n as int),
        ExprModel::Forall(ps, a) => "(forall ("@ + typed_list_text(ps) + ") "@ + expr_text(*a)
            + ")"@,
        ExprModel::Duration(i, a) => "("@ + instant_text(i) + " "@ + expr_text(*a) + ")"@,
    }
}

/// The texts of expressions, with a space between each two.
pub open spec fn exprs_text(es: Seq<ExprModel>) -> Seq<char>
    decreases es,
{
    if es.len() == 0 {
        seq![]
    } else if es.len() == 1 {
        expr_text(es[0])
    } else {
        exprs_text(es.drop_last()) + " "@ + expr_text(es.last())
    }
}

proof fn lemma_params_progress(l: Seq<Lexeme>, p: int)
    ensures
        params_spec(l, p).0 >= p,
    decreases remaining(l, p),
{
    if is_name_at(l, p) {
        lemma_params_progress(l, p + 1);
    }
}

/// An operand that reads at `p` ends after `p`.
proof fn lemma_operand_progress(l: Seq<Lexeme>, p: int, with_var: bool)
    ensures
        operand_spec(l, p, with_var) matches Some((q, _)) ==> q > p,
    decreases remaining(l, p), 1nat,
{
    lemma_comparison_progress(l, p);
    lemma_params_progress(l, p + 2);
}

/// A binary operation that reads at `p` ends after `p`.
proof fn lemma_comparison_progress(l: Seq<Lexeme>, p: int)
    ensures
        comparison_spec(l, p) matches Some((q, _)) ==> q > p,
    decreases remaining(l, p), 0nat,
{
    if token_at(l, p) == Some(Token::OpenParen) && binary_op_spec(l, p + 1) is Some {
        lemma_operand_progress(l, p + 2, true);
        if let Some((q, _)) = operand_spec(l, p + 2, true) {
            if remaining(l, q) < remaining(l, p) {
                lemma_operand_progress(l, q, true);
            }
        }
    }
}

impl BinaryOp {
    /// The operator's text.
    pub fn to_pddl(&self) -> (r: String)
        ensures
            r@ == binary_op_text(*self),
    {
        let s = match self {
            BinaryOp::Add => "+",
            BinaryOp::Subtract => "-",
            BinaryOp::Multiply => "*",
            BinaryOp::Divide => "/",
            BinaryOp::Equal => "=",
        };
        s.to_owned()
    }
}

impl DurationInstant {
    /// The instant's text: `at start`, `at end` or `over all`.
    pub fn to_pddl(&self) -> (r: String)
        ensures
            r@ == instant_text(*self),
    {
        let s = match self {
            DurationInstant::Start => "at start",
            DurationInstant::End => "at end",
            DurationInstant::All => "over all",
        };
        s.to_owned()
    }
}

/// Whether `name` starts with `?`.
fn is_variable_name(name: &String) -> (b: bool)
    ensures
        b == (name@.len() > 0 && name@[0] == '?'),
{
    let cs = chars_of(name.as_str());
    cs.len() > 0 && cs[0] == '?'
}

/// `(head a b)`.
fn form_to_pddl(head: &str, a: String, b: String) -> (r: String)
    ensures
        r@ == form_text(head@, a@, b@),
{
    let mut r = "(".to_owned();
    r.append(head);
    r.append(" ");
    r.append(a.as_str());
    r.append(" ");
    r.append(b.as_str());
    r.append(")");
    r
}

impl Expression {
    /// A copy of the expression.
    pub fn copy(&self) -> (r: Expression)
        ensures
            r@ == self@,
        decreases self,
    {
        match self {
            Expression::Atom { name, parameters } => {
                let mut ps: Vec<Parameter> = Vec::new();
                for k in 0..parameters.len()
                    invariant
                        param_texts(ps@) == param_texts(parameters@.take(k as int)),
                {
                    let ghost before = ps@;
                    let p = parameters[k].copy();
                    ps.push(p);
                    assert(param_texts(ps@) =~= param_texts(before).push(p@));
                    assert(param_texts(parameters@.take(k + 1)) =~= param_texts(
                        parameters@.take(k as int),
                    ).push(parameters@[k as int]@));
                }
                assert(parameters@.take(parameters.len() as int) =~= parameters@);
                Expression::Atom { name: name.clone(), parameters: ps }
            },
            Expression::And(es) => {
                let mut out: Vec<Expression> = Vec::new();
                for k in 0..es.len()
                    invariant
                        *self == Expression::And(*es),
                        exprs_model(out@) == exprs_model(es@.take(k as int)),
                {
                    proof {
                        vstd::std_specs::vec::axiom_vec_index_decreases(*es, k as int);
                        assert(decreases_to!(*es => es[k as int]));
                        assert((*self)->And_0 == *es);
                        assert(decreases_to!(*self => (*self)->And_0));
                    }
                    let ghost before = out@;
                    let c = es[k].copy();
                    out.push(c);
                    proof {
                        assert(out@.drop_last() =~= before);
                        assert(es@.take(k + 1).drop_last() =~= es@.take(k as int));
                        assert(es@.take(k + 1).last() == es@[k as int]);
                    }
                }
                assert(es@.take(es.len() as int) =~= es@);
                Expression::And(out)
            },
            Expression::Not(a) => Expression::Not(Box::new(a.copy())),
            Expression::Assign(a, b) => Expression::Assign(Box::new(a.copy()), Box::new(b.copy())),
            Expression::Increase(a, b) => Expression::Increase(
                Box::new(a.copy()),
                Box::new(b.copy()),
            ),
            Expression::Decrease(a, b) => Expression::Decrease(
                Box::new(a.copy()),
                Box::new(b.copy()),
            ),
            Expression::ScaleUp(a, b) => Expression::ScaleUp(Box::new(a.copy()), Box::new(b.copy())),
            Expression::ScaleDown(a, b) => Expression::ScaleDown(
                Box::new(a.copy()),
                Box::new(b.copy()),
            ),
            Expression::BinaryOp(op, a, b) => Expression::BinaryOp(
                *op,
                Box::new(a.copy()),
                Box::new(b.copy()),
            ),
            Expression::Number(n) => Expression::Number(*n),
            Expression::Forall(ps, a) => {
                let mut out: Vec<TypedParameter> = Vec::new();
                for k in 0..ps.len()
                    invariant
                        typed_views(out@) == typed_views(ps@.take(k as int)),
                {
                    let ghost before = out@;
                    let p = ps[k].copy();
                    out.push(p);
                    assert(typed_views(out@) =~= typed_views(before).push(p@));
                    assert(typed_views(ps@.take(k + 1)) =~= typed_views(ps@.take(k as int)).push(
                        ps@[k as int]@,
                    ));
                }
                assert(ps@.take(ps.len() as int) =~= ps@);
                Expression::Forall(out, Box::new(a.copy()))
            },
            Expression::Duration(i, a) => Expression::Duration(*i, Box::new(a.copy())),
        }
    }

    /// The expression's text, which reads back as the same expression.
    pub fn to_pddl(&self) -> (r: String)
        ensures
            r@ == expr_text(self@),
        decreases self,
    {
        match self {
            Expression::Atom { name, parameters } => {
                let ghost args = param_texts(parameters@);
                if parameters.len() == 0 && is_variable_name(name) {
                    return name.clone();
                }
                let mut r = "(".to_owned();
                r.append(name.as_str());
                for k in 0..parameters.len()
                    invariant
                        args == param_texts(parameters@),
                        r@ == "("@ + join(seq![name@] + args.take(k as int), " "@),
                {
                    r.append(" ");
                    r.append(parameters[k].0.as_str());
                    assert((seq![name@] + args.take(k + 1)).drop_last() =~= seq![name@]
                        + args.take(k as int));
                }
                assert(args.take(parameters.len() as int) =~= args);
                r.append(")");
                r
            },
            Expression::And(es) => {
                let mut r = "(and ".to_owned();
                for k in 0..es.len()
                    invariant
                        *self == Expression::And(*es),
                        r@ == "(and "@ + exprs_text(exprs_model(es@.take(k as int))),
                {
                    if k > 0 {
                        r.append(" ");
                    }
                    proof {
                        vstd::std_specs::vec::axiom_vec_index_decreases(*es, k as int);
                        assert(decreases_to!(*es => es[k as int]));
                        assert((*self)->And_0 == *es);
                        assert(decreases_to!(*self => (*self)->And_0));
                    }
                    let t = es[k].to_pddl();
                    r.append(t.as_str());
                    proof {
                        let prev = exprs_model(es@.take(k as int));
                        assert(es@.take(k + 1).drop_last() =~= es@.take(k as int));
                        assert(es@.take(k + 1).last() == es@[k as int]);
                        assert(exprs_model(es@.take(k + 1)) == prev.push(es@[k as int]@));
                        assert(prev.push(es@[k as int]@).drop_last() =~= prev);
                        if k == 0 {
                            assert(prev.push(es@[k as int]@)[0] == es@[k as int]@);
                        }
                    }
                }
                assert(es@.take(es.len() as int) =~= es@);
                r.append(")");
                r
            },
            Expression::Not(a) => {
                let t = a.to_pddl();
                let mut r = "(not ".to_owned();
                r.append(t.as_str());
                r.append(")");
                r
            },
            Expression::Assign(a, b) => form_to_pddl("assign", a.to_pddl(), b.to_pddl()),
            Expression::Increase(a, b) => form_to_pddl("increase", a.to_pddl(), b.to_pddl()),
            Expression::Decrease(a, b) => form_to_pddl("decrease", a.to_pddl(), b.to_pddl()),
            Expression::ScaleUp(a, b) => form_to_pddl("scale-up", a.to_pddl(), b.to_pddl()),
            Expression::ScaleDown(a, b) => form_to_pddl("scale-down", a.to_pddl(), b.to_pddl()),
            Expression::BinaryOp(op, a, b) => {
                let o = op.to_pddl();
                form_to_pddl(o.as_str(), a.to_pddl(), b.to_pddl())
            },
            Expression::Number(n) => integer_text(*n),
            Expression::Forall(ps, a) => {
                let tp = TypedParameter::list_to_pddl(ps);
                let t = a.to_pddl();
                let mut r = "(forall (".to_owned();
                r.append(tp.as_str());
                r.append(") ");
                r.append(t.as_str());
                r.append(")");
                r
            },
            Expression::Duration(i, a) => {
                let ti = i.to_pddl();
                let t = a.to_pddl();
                let mut r = "(".to_owned();
                r.append(ti.as_str());
                r.append(" ");
                r.append(t.as_str());
                r.append(")");
                r
            },
        }
    }
}

} // verus!
