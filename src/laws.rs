use vstd::prelude::*;

use crate::domain::expression::{
    and_spec, assign_model, assign_spec, assignment_spec, atom_spec, binary_op_spec,
    comparison_spec, duration_spec, expr_spec, exprs_spec, forall_spec, instant_spec, not_spec,
    number_spec, operand_spec, var_spec, BinaryOp, DurationInstant, ExprModel,
};
use crate::domain::parameter::{is_name_at, params_spec};
use crate::domain::typed_parameter::{fan_out, group_spec, groups_spec, TypedModel};
use crate::domain::typing::{object_type, type_spec, words_spec, TypeModel};
use crate::keyword::Token;
use crate::lexer::Lexeme;
use crate::stream::{remaining, text_at, token_at};

verus! {

/// A group of names written without `- type` gives each name the type `object`.
pub proof fn lemma_default_type(l: Seq<Lexeme>, p: int, k: Token)
    requires
        words_spec(l, p, k).1.len() > 0,
        token_at(l, words_spec(l, p, k).0) != Some(Token::Dash),
    ensures
        group_spec(l, p, k, false) matches Some((q, ps)) && q == words_spec(l, p, k).0
            && ps.len() == words_spec(l, p, k).1.len() && forall|i: int|
            0 <= i < ps.len() ==> (#[trigger] ps[i]).0 == words_spec(l, p, k).1[i] && ps[i].1
                == object_type(),
{
}

/// The type written after a group of names is given to every name of the group, in
/// the order the names are written.
pub proof fn lemma_fan_out(l: Seq<Lexeme>, p: int, k: Token, t: TypeModel)
    requires
        words_spec(l, p, k).1.len() > 0,
        token_at(l, words_spec(l, p, k).0) == Some(Token::Dash),
        type_spec(l, words_spec(l, p, k).0 + 1) matches Some((_, u)) && u == t,
    ensures
        group_spec(l, p, k, false) matches Some((_, ps)) && ps == fan_out(words_spec(l, p, k).1, t)
            && ps.len() == words_spec(l, p, k).1.len() && forall|i: int|
            0 <= i < ps.len() ==> (#[trigger] ps[i]).0 == words_spec(l, p, k).1[i] && ps[i].1 == t,
{
}

/// An alternative of an expression that reads a prefix and then fails leaves nothing
/// behind: the next alternative reads from the same position. So where `and` fails at
/// `p`, the expression there is what the remaining alternatives read at `p`.
pub proof fn lemma_alternatives_start_at_same_position(l: Seq<Lexeme>, p: int)
    requires
        and_spec(l, p) is None,
    ensures
        expr_spec(l, p) == if not_spec(l, p) is Some {
            not_spec(l, p)
        } else if atom_spec(l, p) is Some {
            atom_spec(l, p)
        } else if assignment_spec(l, p) is Some {
            assignment_spec(l, p)
        } else if duration_spec(l, p) is Some {
            duration_spec(l, p)
        } else if forall_spec(l, p) is Some {
            forall_spec(l, p)
        } else {
            comparison_spec(l, p)
        },
{
}

/// The tokens whose text matters: identifiers, variables and decimal numbers.
pub open spec fn has_text(t: Token) -> bool {
    t == Token::Id || t == Token::Var || t == Token::Float
}

/// The lexemes from `p` are the tokens `toks`: the same kinds, and for identifiers,
/// variables and decimal numbers the same texts.
pub open spec fn holds_tokens(l: Seq<Lexeme>, p: int, toks: Seq<(Token, Seq<char>)>) -> bool {
    forall|i: int|
        0 <= i < toks.len() ==> token_at(l, p + i) == Some(#[trigger] toks[i].0) && (has_text(
            toks[i].0,
        ) ==> text_at(l, p + i) == toks[i].1)
}

/// A token whose text does not matter.
pub open spec fn mark(t: Token) -> (Token, Seq<char>) {
    (t, seq![])
}

/// The tokens of names of kind `k`.
pub open spec fn name_tokens(v: Seq<Seq<char>>, k: Token) -> Seq<(Token, Seq<char>)> {
    v.map_values(|s: Seq<char>| (k, s))
}

/// The tokens that the text of a type reads as.
pub open spec fn type_tokens(t: TypeModel) -> Seq<(Token, Seq<char>)> {
    match t {
        TypeModel::Simple(s) => seq![(Token::Id, s)],
        TypeModel::Either(v) => seq![mark(Token::OpenParen), mark(Token::Either)] + name_tokens(
            v,
            Token::Id,
        ) + seq![mark(Token::CloseParen)],
    }
}

/// The tokens that the text `name - type` of a typed name of kind `k` (a variable or
/// an identifier) reads as.
pub open spec fn typed_tokens(p: TypedModel, k: Token) -> Seq<(Token, Seq<char>)> {
    seq![(k, p.0), mark(Token::Dash)] + type_tokens(p.1)
}

/// The tokens that the text of a list of typed names of kind `k` reads as.
pub open spec fn typed_list_tokens(ps: Seq<TypedModel>, k: Token) -> Seq<(Token, Seq<char>)>
    decreases ps.len(),
{
    if ps.len() == 0 {
        seq![]
    } else {
        typed_tokens(ps[0], k) + typed_list_tokens(ps.drop_first(), k)
    }
}

/// A type that its text can denote: an `either` names at least one type.
pub open spec fn type_wf(t: TypeModel) -> bool {
    match t {
        TypeModel::Simple(_) => true,
        TypeModel::Either(v) => v.len() >= 1,
    }
}

/// The lexeme at `p + i` is the `i`-th of the tokens that hold from `p`.
pub proof fn lemma_holds_at(l: Seq<Lexeme>, p: int, toks: Seq<(Token, Seq<char>)>, i: int)
    requires
        holds_tokens(l, p, toks),
        0 <= i < toks.len(),
    ensures
        token_at(l, p + i) == Some(toks[i].0),
        has_text(toks[i].0) ==> text_at(l, p + i) == toks[i].1,
{
    let _ = toks[i].0;
}

/// Tokens that hold from `p` hold in two parts.
pub proof fn lemma_holds_shift(l: Seq<Lexeme>, p: int, a: Seq<(Token, Seq<char>)>, b: Seq<(Token, Seq<char>)>)
    requires
        holds_tokens(l, p, a + b),
    ensures
        holds_tokens(l, p, a),
        holds_tokens(l, p + a.len(), b),
{
    assert forall|i: int| 0 <= i < a.len() implies token_at(l, p + i) == Some(#[trigger] a[i].0)
        && (has_text(a[i].0) ==> text_at(l, p + i) == a[i].1) by {
        assert((a + b)[i] == a[i]);
    }
    assert forall|i: int| 0 <= i < b.len() implies token_at(l, p + a.len() + i) == Some(
        #[trigger] b[i].0,
    ) && (has_text(b[i].0) ==> text_at(l, p + a.len() + i) == b[i].1) by {
        assert((a + b)[a.len() + i] == b[i]);
        assert(p + (a.len() + i) == p + a.len() + i);
    }
}

/// Names of kind `k` read back from their tokens, where no such name follows.
pub proof fn lemma_words_round_trip(l: Seq<Lexeme>, p: int, v: Seq<Seq<char>>, k: Token)
    requires
        k == Token::Id || k == Token::Var,
        holds_tokens(l, p, name_tokens(v, k)),
        token_at(l, p + v.len()) != Some(k),
    ensures
        words_spec(l, p, k) == (p + v.len(), v),
    decreases v.len(),
{
    if v.len() == 0 {
    } else {
        let toks = name_tokens(v, k);
        assert(toks[0] == (k, v[0]));
        lemma_holds_at(l, p, toks, 0);
        assert(token_at(l, p) == Some(k));
        assert(text_at(l, p) == v[0]);
        assert(name_tokens(v, k) =~= seq![(k, v[0])] + name_tokens(v.drop_first(), k));
        lemma_holds_shift(l, p, seq![(k, v[0])], name_tokens(v.drop_first(), k));
        lemma_words_round_trip(l, p + 1, v.drop_first(), k);
        assert(seq![text_at(l, p)] + v.drop_first() =~= v);
    }
}

proof fn lemma_type_round_trip(l: Seq<Lexeme>, p: int, t: TypeModel)
    requires
        type_wf(t),
        holds_tokens(l, p, type_tokens(t)),
    ensures
        type_spec(l, p) == Some((p + type_tokens(t).len(), t)),
{
    match t {
        TypeModel::Simple(s) => {
            assert(type_tokens(t)[0] == (Token::Id, s));
            lemma_holds_at(l, p, type_tokens(t), 0);
        },
        TypeModel::Either(v) => {
            let toks = type_tokens(t);
            let head = seq![mark(Token::OpenParen), mark(Token::Either)];
            assert(toks =~= head + (name_tokens(v, Token::Id) + seq![mark(Token::CloseParen)]));
            assert(toks[0] == mark(Token::OpenParen));
            assert(toks[1] == mark(Token::Either));
            lemma_holds_at(l, p, toks, 0);
            lemma_holds_at(l, p, toks, 1);
            lemma_holds_shift(l, p, head, name_tokens(v, Token::Id) + seq![mark(Token::CloseParen)]);
            lemma_holds_shift(l, p + 2, name_tokens(v, Token::Id), seq![mark(Token::CloseParen)]);
            assert(seq![mark(Token::CloseParen)][0] == mark(Token::CloseParen));
            lemma_holds_at(l, p + 2 + name_tokens(v, Token::Id).len(), seq![mark(Token::CloseParen)], 0);
            assert(token_at(l, p + 2 + v.len()) == Some(Token::CloseParen));
            lemma_words_round_trip(l, p + 2, v, Token::Id);
        },
    }
}

/// A list of typed names reads back from the tokens of its text: where the lexemes
/// from `p` are the tokens of the list's text (names of kind `k`, each with `-` and
/// its type), followed by no name of kind `k`, the groups read at `p` are the list
/// itself, whether or not the grammar asks for the types.
pub proof fn lemma_typed_parameters_round_trip(
    l: Seq<Lexeme>,
    p: int,
    ps: Seq<TypedModel>,
    k: Token,
    required: bool,
)
    requires
        k == Token::Id || k == Token::Var,
        forall|i: int| 0 <= i < ps.len() ==> type_wf(#[trigger] ps[i].1),
        holds_tokens(l, p, typed_list_tokens(ps, k)),
        token_at(l, p + typed_list_tokens(ps, k).len()) != Some(k),
    ensures
        groups_spec(l, p, k, required) == (p + typed_list_tokens(ps, k).len(), ps),
    decreases ps.len(),
{
    if ps.len() == 0 {
        assert(words_spec(l, p, k) == (p, Seq::<Seq<char>>::empty()));
    } else {
        let first = ps[0];
        let rest = ps.drop_first();
        let tt = type_tokens(first.1);
        assert(type_wf(first.1));
        assert(typed_list_tokens(ps, k) == typed_tokens(first, k) + typed_list_tokens(rest, k));
        lemma_holds_shift(l, p, typed_tokens(first, k), typed_list_tokens(rest, k));
        let head = seq![(k, first.0), mark(Token::Dash)];
        lemma_holds_shift(l, p, head, tt);
        assert(head[0] == (k, first.0));
        assert(head[1] == mark(Token::Dash));
        lemma_holds_at(l, p, head, 0);
        lemma_holds_at(l, p, head, 1);
        assert(token_at(l, p + 1) == Some(Token::Dash));
        assert(name_tokens(seq![first.0], k) =~= seq![(k, first.0)]);
        assert(holds_tokens(l, p, name_tokens(seq![first.0], k)));
        lemma_words_round_trip(l, p, seq![first.0], k);
        lemma_type_round_trip(l, p + 2, first.1);
        assert(fan_out(seq![first.0], first.1) =~= seq![first]);
        let q = p + typed_tokens(first, k).len();
        assert(typed_list_tokens(ps, k).len() == typed_tokens(first, k).len() + typed_list_tokens(rest, k).len());
        assert forall|i: int| 0 <= i < rest.len() implies type_wf(#[trigger] rest[i].1) by {
            assert(rest[i] == ps[i + 1]);
        }
        lemma_typed_parameters_round_trip(l, q, rest, k, required);
        assert(seq![first] + rest =~= ps);
    }
}

/// Whether a name is a variable's: it starts with `?`.
pub open spec fn is_var_name(s: Seq<char>) -> bool {
    s.len() > 0 && s[0] == '?'
}

/// The token of an argument: a variable or an identifier.
pub open spec fn arg_token(s: Seq<char>) -> (Token, Seq<char>) {
    if is_var_name(s) {
        (Token::Var, s)
    } else {
        (Token::Id, s)
    }
}

pub open spec fn arg_tokens(args: Seq<Seq<char>>) -> Seq<(Token, Seq<char>)> {
    args.map_values(|s: Seq<char>| arg_token(s))
}

/// The token of a binary operator.
pub open spec fn op_token(op: BinaryOp) -> Token {
    match op {
        BinaryOp::Add => Token::Plus,
        BinaryOp::Subtract => Token::Dash,
        BinaryOp::Multiply => Token::Times,
        BinaryOp::Divide => Token::Divide,
        BinaryOp::Equal => Token::Equal,
    }
}

/// The two tokens of an instant.
pub open spec fn instant_tokens(i: DurationInstant) -> Seq<(Token, Seq<char>)> {
    match i {
        DurationInstant::Start => seq![mark(Token::At), mark(Token::Start)],
        DurationInstant::End => seq![mark(Token::At), mark(Token::End)],
        DurationInstant::All => seq![mark(Token::Over), mark(Token::All)],
    }
}

/// `( kw a b )` as tokens.
pub open spec fn form_tokens(kw: Token, a: Seq<(Token, Seq<char>)>, b: Seq<(Token, Seq<char>)>) -> Seq<
    (Token, Seq<char>),
> {
    seq![mark(Token::OpenParen), mark(kw)] + a + b + seq![mark(Token::CloseParen)]
}

/// The tokens that the text of an expression reads as.
pub open spec fn expr_tokens(e: ExprModel) -> Seq<(Token, Seq<char>)>
    decreases e,
{
    match e {
        ExprModel::Atom(name, args) => if args.len() == 0 && is_var_name(name) {
            seq![(Token::Var, name)]
        } else {
            seq![mark(Token::OpenParen), (Token::Id, name)] + arg_tokens(args) + seq![
                mark(Token::CloseParen),
            ]
        },
        ExprModel::And(es) => form_tokens(Token::And, exprs_tokens(es), seq![]),
        ExprModel::Not(a) => form_tokens(Token::Not, expr_tokens(*a), seq![]),
        ExprModel::Assign(a, b) => form_tokens(Token::Assign, expr_tokens(*a), expr_tokens(*b)),
        ExprModel::Increase(a, b) => form_tokens(Token::Increase, expr_tokens(*a), expr_tokens(*b)),
        ExprModel::Decrease(a, b) => form_tokens(Token::Decrease, expr_tokens(*a), expr_tokens(*b)),
        ExprModel::ScaleUp(a, b) => form_tokens(Token::ScaleUp, expr_tokens(*a), expr_tokens(*b)),
        ExprModel::ScaleDown(a, b) => form_tokens(
            Token::ScaleDown,
            expr_tokens(*a),
            expr_tokens(*b),
        ),
        ExprModel::BinaryOp(op, a, b) => form_tokens(op_token(op), expr_tokens(*a), expr_tokens(*b)),
        ExprModel::Number(n) => seq![mark(Token::Integer(n))],
        ExprModel::Forall(ps, a) => form_tokens(
            Token::Forall,
            seq![mark(Token::OpenParen)] + typed_list_tokens(ps, Token::Var) + seq![
                mark(Token::CloseParen),
            ],
            expr_tokens(*a),
        ),
        ExprModel::Duration(i, a) => seq![mark(Token::OpenParen)] + instant_tokens(i) + expr_tokens(
            *a,
        ) + seq![mark(Token::CloseParen)],
    }
}

/// The tokens of expressions, one after another.
pub open spec fn exprs_tokens(es: Seq<ExprModel>) -> Seq<(Token, Seq<char>)>
    decreases es,
{
    if es.len() == 0 {
        seq![]
    } else {
        expr_tokens(es[0]) + exprs_tokens(es.drop_first())
    }
}

/// An operand that the grammar reads: a number, a binary operation over operands, an
/// atom, or, where `with_var` holds, a bare variable.
pub open spec fn operand_wf(e: ExprModel, with_var: bool) -> bool
    decreases e,
{
    match e {
        ExprModel::Number(_) => true,
        ExprModel::BinaryOp(_, a, b) => operand_wf(*a, true) && operand_wf(*b, true),
        ExprModel::Atom(name, args) => with_var || !(args.len() == 0 && is_var_name(name)),
        _ => false,
    }
}

/// An expression that the grammar reads: no bare number or bare variable stands
/// where an expression is expected, and the operands are operands.
pub open spec fn expr_wf(e: ExprModel) -> bool
    decreases e,
{
    match e {
        ExprModel::Atom(name, args) => !(args.len() == 0 && is_var_name(name)),
        ExprModel::And(es) => exprs_wf(es),
        ExprModel::Not(a) => expr_wf(*a),
        ExprModel::Assign(a, b) => operand_wf(*a, false) && operand_wf(*b, false),
        ExprModel::Increase(a, b) => operand_wf(*a, false) && operand_wf(*b, false),
        ExprModel::Decrease(a, b) => operand_wf(*a, false) && operand_wf(*b, false),
        ExprModel::ScaleUp(a, b) => operand_wf(*a, false) && operand_wf(*b, false),
        ExprModel::ScaleDown(a, b) => operand_wf(*a, false) && operand_wf(*b, false),
        ExprModel::BinaryOp(_, a, b) => operand_wf(*a, true) && operand_wf(*b, true),
        ExprModel::Number(_) => false,
        ExprModel::Forall(ps, a) => (forall|i: int| 0 <= i < ps.len() ==> type_wf(#[trigger] ps[i].1))
            && expr_wf(*a),
        ExprModel::Duration(_, a) => expr_wf(*a),
    }
}

pub open spec fn exprs_wf(es: Seq<ExprModel>) -> bool
    decreases es,
{
    if es.len() == 0 {
        true
    } else {
        expr_wf(es[0]) && exprs_wf(es.drop_first())
    }
}

/// Arguments read back from their tokens, where a `)` follows them.
pub proof fn lemma_args_round_trip(l: Seq<Lexeme>, p: int, args: Seq<Seq<char>>)
    requires
        holds_tokens(l, p, arg_tokens(args)),
        token_at(l, p + args.len()) == Some(Token::CloseParen),
    ensures
        params_spec(l, p) == (p + args.len(), args),
    decreases args.len(),
{
    if args.len() > 0 {
        let toks = arg_tokens(args);
        assert(toks[0] == arg_token(args[0]));
        lemma_holds_at(l, p, toks, 0);
        assert(is_name_at(l, p));
        assert(text_at(l, p) == args[0]);
        assert(toks =~= seq![arg_token(args[0])] + arg_tokens(args.drop_first()));
        lemma_holds_shift(l, p, seq![arg_token(args[0])], arg_tokens(args.drop_first()));
        lemma_args_round_trip(l, p + 1, args.drop_first());
        assert(seq![text_at(l, p)] + args.drop_first() =~= args);
    }
}

/// Splits the tokens of `( kw a b )` at `p` into their parts.
pub proof fn lemma_form_parts(
    l: Seq<Lexeme>,
    p: int,
    kw: Token,
    a: Seq<(Token, Seq<char>)>,
    b: Seq<(Token, Seq<char>)>,
)
    requires
        holds_tokens(l, p, form_tokens(kw, a, b)),
    ensures
        token_at(l, p) == Some(Token::OpenParen),
        token_at(l, p + 1) == Some(kw),
        holds_tokens(l, p + 2, a),
        holds_tokens(l, p + 2 + a.len(), b),
        token_at(l, p + 2 + a.len() + b.len()) == Some(Token::CloseParen),
        p + 2 + a.len() + b.len() < l.len(),
        form_tokens(kw, a, b).len() == a.len() + b.len() + 3,
{
    let head = seq![mark(Token::OpenParen), mark(kw)];
    let tail = seq![mark(Token::CloseParen)];
    lemma_holds_shift(l, p, head + a + b, tail);
    lemma_holds_shift(l, p, head + a, b);
    lemma_holds_shift(l, p, head, a);
    lemma_holds_at(l, p, head, 0);
    lemma_holds_at(l, p, head, 1);
    lemma_holds_at(l, p + (head + a + b).len(), tail, 0);
}

proof fn lemma_no_expression_at_close(l: Seq<Lexeme>, p: int)
    requires
        token_at(l, p) == Some(Token::CloseParen),
    ensures
        expr_spec(l, p) is None,
{
    assert(and_spec(l, p) is None);
    assert(not_spec(l, p) is None);
    assert(atom_spec(l, p) is None);
    assert(assign_spec(l, p, Token::Assign) is None);
    assert(assign_spec(l, p, Token::ScaleUp) is None);
    assert(assign_spec(l, p, Token::ScaleDown) is None);
    assert(assign_spec(l, p, Token::Increase) is None);
    assert(assign_spec(l, p, Token::Decrease) is None);
    assert(assignment_spec(l, p) is None);
    assert(duration_spec(l, p) is None);
    assert(forall_spec(l, p) is None);
    assert(comparison_spec(l, p) is None);
}

proof fn lemma_operand_round_trip(l: Seq<Lexeme>, p: int, e: ExprModel, with_var: bool)
    requires
        operand_wf(e, with_var),
        holds_tokens(l, p, expr_tokens(e)),
    ensures
        operand_spec(l, p, with_var) == Some((p + expr_tokens(e).len(), e)),
    decreases e, 1nat,
{
    match e {
        ExprModel::Number(n) => {
            lemma_holds_at(l, p, expr_tokens(e), 0);
        },
        ExprModel::BinaryOp(op, a, b) => {
            lemma_form_parts(l, p, op_token(op), expr_tokens(*a), expr_tokens(*b));
            assert(number_spec(l, p) is None);
            lemma_comparison_round_trip(l, p, e);
        },
        ExprModel::Atom(name, args) => {
            if args.len() == 0 && is_var_name(name) {
                lemma_holds_at(l, p, expr_tokens(e), 0);
                assert(number_spec(l, p) is None);
                assert(comparison_spec(l, p) is None);
                assert(atom_spec(l, p) is None);
                assert(args =~= seq![]);
            } else {
                lemma_atom_round_trip(l, p, name, args);
                assert(number_spec(l, p) is None);
                assert(binary_op_spec(l, p + 1) is None);
                assert(comparison_spec(l, p) is None);
            }
        },
        _ => {},
    }
}

proof fn lemma_atom_round_trip(l: Seq<Lexeme>, p: int, name: Seq<char>, args: Seq<Seq<char>>)
    requires
        !(args.len() == 0 && is_var_name(name)),
        holds_tokens(l, p, expr_tokens(ExprModel::Atom(name, args))),
    ensures
        atom_spec(l, p) == Some(
            (p + expr_tokens(ExprModel::Atom(name, args)).len(), ExprModel::Atom(name, args)),
        ),
        token_at(l, p + 1) == Some(Token::Id),
{
    let head = seq![mark(Token::OpenParen), (Token::Id, name)];
    let tail = seq![mark(Token::CloseParen)];
    lemma_holds_shift(l, p, head + arg_tokens(args), tail);
    lemma_holds_shift(l, p, head, arg_tokens(args));
    lemma_holds_at(l, p, head, 0);
    lemma_holds_at(l, p, head, 1);
    lemma_holds_at(l, p + (head + arg_tokens(args)).len(), tail, 0);
    lemma_args_round_trip(l, p + 2, args);
}

proof fn lemma_comparison_round_trip(l: Seq<Lexeme>, p: int, e: ExprModel)
    requires
        e is BinaryOp,
        operand_wf(e, true),
        holds_tokens(l, p, expr_tokens(e)),
    ensures
        comparison_spec(l, p) == Some((p + expr_tokens(e).len(), e)),
    decreases e, 0nat,
{
    if let ExprModel::BinaryOp(op, a, b) = e {
        lemma_form_parts(l, p, op_token(op), expr_tokens(*a), expr_tokens(*b));
        assert(binary_op_spec(l, p + 1) == Some(op));
        lemma_operand_round_trip(l, p + 2, *a, true);
        lemma_operand_round_trip(l, p + 2 + expr_tokens(*a).len(), *b, true);
    }
}

proof fn lemma_tokens_nonempty(e: ExprModel)
    ensures
        expr_tokens(e).len() >= 1,
{
    match e {
        ExprModel::Duration(i, a) => {
            assert((seq![mark(Token::OpenParen)] + instant_tokens(i) + expr_tokens(*a) + seq![
                mark(Token::CloseParen),
            ]).len() >= 1);
        },
        _ => {},
    }
}

/// Expressions one after another read back from their tokens, where a `)` follows
/// them.
pub proof fn lemma_expressions_round_trip(l: Seq<Lexeme>, p: int, es: Seq<ExprModel>)
    requires
        exprs_wf(es),
        holds_tokens(l, p, exprs_tokens(es)),
        token_at(l, p + exprs_tokens(es).len()) == Some(Token::CloseParen),
    ensures
        exprs_spec(l, p) == (p + exprs_tokens(es).len(), es),
    decreases es, 3nat,
{
    if es.len() == 0 {
        lemma_no_expression_at_close(l, p);
        assert(es =~= seq![]);
    } else {
        let first = expr_tokens(es[0]);
        let rest = exprs_tokens(es.drop_first());
        lemma_holds_shift(l, p, first, rest);
        lemma_tokens_nonempty(es[0]);
        lemma_holds_at(l, p, first, 0);
        lemma_expression_round_trip(l, p, es[0]);
        lemma_expressions_round_trip(l, p + first.len(), es.drop_first());
        assert(seq![es[0]] + es.drop_first() =~= es);
    }
}

/// An expression reads back from the tokens of its text: where the lexemes from `p`
/// are the tokens that the text of a well-formed expression `e` reads as, the
/// expression read at `p` is `e`, and reading ends just after those tokens. (That
/// `lex_spec` of the printed text gives exactly these tokens is not proved here.)
#[verifier::spinoff_prover]
#[verifier::rlimit(100)]
pub proof fn lemma_expression_round_trip(l: Seq<Lexeme>, p: int, e: ExprModel)
    requires
        expr_wf(e),
        holds_tokens(l, p, expr_tokens(e)),
    ensures
        expr_spec(l, p) == Some((p + expr_tokens(e).len(), e)),
    decreases e, 2nat,
{
    match e {
        ExprModel::Atom(name, args) => {
            lemma_atom_round_trip(l, p, name, args);
        },
        ExprModel::And(es) => {
            lemma_form_parts(l, p, Token::And, exprs_tokens(es), seq![]);
            lemma_expressions_round_trip(l, p + 2, es);
        },
        ExprModel::Not(a) => {
            lemma_form_parts(l, p, Token::Not, expr_tokens(*a), seq![]);
            lemma_expression_round_trip(l, p + 2, *a);
        },
        ExprModel::Assign(a, b) => {
            lemma_assign_round_trip(l, p, Token::Assign, *a, *b);
        },
        ExprModel::ScaleUp(a, b) => {
            lemma_assign_round_trip(l, p, Token::ScaleUp, *a, *b);
        },
        ExprModel::ScaleDown(a, b) => {
            lemma_assign_round_trip(l, p, Token::ScaleDown, *a, *b);
        },
        ExprModel::Increase(a, b) => {
            lemma_assign_round_trip(l, p, Token::Increase, *a, *b);
        },
        ExprModel::Decrease(a, b) => {
            lemma_assign_round_trip(l, p, Token::Decrease, *a, *b);
        },
        ExprModel::BinaryOp(op, a, b) => {
            lemma_form_parts(l, p, op_token(op), expr_tokens(*a), expr_tokens(*b));
            lemma_comparison_round_trip(l, p, e);
            assert(assignment_spec(l, p) is None);
            assert(instant_spec(l, p + 1) is None);
        },
        ExprModel::Number(_) => {},
        ExprModel::Forall(ps, a) => {
            let inner = seq![mark(Token::OpenParen)] + typed_list_tokens(ps, Token::Var) + seq![
                mark(Token::CloseParen),
            ];
            lemma_form_parts(l, p, Token::Forall, inner, expr_tokens(*a));
            lemma_holds_shift(l, p + 2, seq![mark(Token::OpenParen)] + typed_list_tokens(ps, Token::Var), seq![
                mark(Token::CloseParen),
            ]);
            lemma_holds_shift(l, p + 2, seq![mark(Token::OpenParen)], typed_list_tokens(ps, Token::Var));
            lemma_holds_at(l, p + 2, seq![mark(Token::OpenParen)], 0);
            let q = p + 3 + typed_list_tokens(ps, Token::Var).len();
            lemma_holds_at(l, q, seq![mark(Token::CloseParen)], 0);
            lemma_typed_parameters_round_trip(l, p + 3, ps, Token::Var, false);
            lemma_expression_round_trip(l, q + 1, *a);
            assert(assignment_spec(l, p) is None);
            assert(instant_spec(l, p + 1) is None);
        },
        ExprModel::Duration(i, a) => {
            let open = seq![mark(Token::OpenParen)];
            let close = seq![mark(Token::CloseParen)];
            let it = instant_tokens(i);
            lemma_holds_shift(l, p, open + it + expr_tokens(*a), close);
            lemma_holds_shift(l, p, open + it, expr_tokens(*a));
            lemma_holds_shift(l, p, open, it);
            lemma_holds_at(l, p, open, 0);
            lemma_holds_at(l, p + 1, it, 0);
            lemma_holds_at(l, p + 1, it, 1);
            lemma_holds_at(l, p + 3 + expr_tokens(*a).len(), close, 0);
            assert(instant_spec(l, p + 1) == Some(i));
            lemma_expression_round_trip(l, p + 3, *a);
            assert(assignment_spec(l, p) is None);
        },
    }
}

proof fn lemma_assign_round_trip(l: Seq<Lexeme>, p: int, kw: Token, a: ExprModel, b: ExprModel)
    requires
        kw == Token::Assign || kw == Token::ScaleUp || kw == Token::ScaleDown || kw == Token::Increase
            || kw == Token::Decrease,
        operand_wf(a, false),
        operand_wf(b, false),
        holds_tokens(l, p, form_tokens(kw, expr_tokens(a), expr_tokens(b))),
    ensures
        expr_spec(l, p) == Some(
            (p + form_tokens(kw, expr_tokens(a), expr_tokens(b)).len(), assign_model(kw, a, b)),
        ),
    decreases a, b,
{
    lemma_form_parts(l, p, kw, expr_tokens(a), expr_tokens(b));
    lemma_operand_round_trip(l, p + 2, a, false);
    lemma_operand_round_trip(l, p + 2 + expr_tokens(a).len(), b, false);
}

} // verus!
