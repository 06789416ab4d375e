use vstd::prelude::*;

use crate::domain::requirement::{requirement_named, Requirement};
use crate::text::is_word;

verus! {

/// A lexical token. Keywords are matched without regard to case. The text of an
/// identifier, a variable or a decimal number is kept beside the token, in its
/// [`Lexeme`](crate::lexer::Lexeme).
#[derive(Clone, Copy, Debug, PartialEq, Eq, Structural, Hash)]
pub enum Token {
    /// `:`
    Colon,
    /// `[`
    OpenBracket,
    /// `]`
    CloseBracket,
    /// `(`
    OpenParen,
    /// `)`
    CloseParen,
    /// The keyword `define`.
    Define,
    /// The keyword `problem`.
    Problem,
    /// The keyword `:objects`.
    Objects,
    /// The keyword `domain`.
    Domain,
    /// The keyword `:domain`.
    ProblemDomain,
    /// The keyword `:requirements`.
    Requirements,
    /// The keyword `:types`.
    Types,
    /// The keyword `:constants`.
    Constants,
    /// The keyword `:predicates`.
    Predicates,
    /// The keyword `:functions`.
    Functions,
    /// The keyword `:action`.
    Action,
    /// The keyword `:durative-action`.
    DurativeAction,
    /// The keyword `:parameters`.
    Parameters,
    /// The keyword `:duration`.
    Duration,
    /// The keyword `:precondition`.
    Precondition,
    /// The keyword `:condition`.
    Condition,
    /// The keyword `:effect`.
    Effect,
    /// The keyword `:init`.
    Init,
    /// The keyword `:goal`.
    Goal,
    /// The keyword `and`.
    And,
    /// The keyword `not`.
    Not,
    /// The keyword `either`.
    Either,
    /// The keyword `assign`.
    Assign,
    /// The keyword `scale-up`.
    ScaleUp,
    /// The keyword `scale-down`.
    ScaleDown,
    /// The keyword `increase`.
    Increase,
    /// The keyword `decrease`.
    Decrease,
    /// The keyword `forall`.
    Forall,
    /// The keyword `at`.
    At,
    /// The keyword `over`.
    Over,
    /// The keyword `all`.
    All,
    /// The keyword `start`.
    Start,
    /// The keyword `end`.
    End,
    /// A requirement keyword such as `:strips`.
    Requirement(Requirement),
    /// An integer, with an optional leading `-`.
    Integer(i64),
    /// A decimal number with a fractional part, such as `1.5`.
    Float,
    /// `+`
    Plus,
    /// `*`
    Times,
    /// `/`
    Divide,
    /// `=`
    Equal,
    /// `-`, a minus sign or a separator before a type.
    Dash,
    /// An identifier: a letter, then letters, digits, `_` or `-`.
    Id,
    /// A variable: `?` followed by an identifier.
    Var,
}

/// Why a piece of the input is not a token.
#[derive(Clone, Copy, Debug, PartialEq, Eq, Structural, Hash)]
pub enum LexError {
    /// No token starts with this character.
    Unrecognized,
    /// An integer literal that does not fit in 64 bits.
    IntegerOutOfRange,
}

/// The lower-case keywords other than requirements.
pub open spec fn keyword(w: Seq<char>) -> Option<Token> {
    if w == "define"@ {
        Some(Token::Define)
    } else if w == "problem"@ {
        Some(Token::Problem)
    } else if w == ":objects"@ {
        Some(Token::Objects)
    } else if w == "domain"@ {
        Some(Token::Domain)
    } else if w == ":domain"@ {
        Some(Token::ProblemDomain)
    } else if w == ":requirements"@ {
        Some(Token::Requirements)
    } else if w == ":types"@ {
        Some(Token::Types)
    } else if w == ":constants"@ {
        Some(Token::Constants)
    } else if w == ":predicates"@ {
        Some(Token::Predicates)
    } else if w == ":functions"@ {
        Some(Token::Functions)
    } else if w == ":action"@ {
        Some(Token::Action)
    } else if w == ":durative-action"@ {
        Some(Token::DurativeAction)
    } else if w == ":parameters"@ {
        Some(Token::Parameters)
    } else if w == ":duration"@ {
        Some(Token::Duration)
    } else if w == ":precondition"@ {
        Some(Token::Precondition)
    } else if w == ":condition"@ {
        Some(Token::Condition)
    } else if w == ":effect"@ {
        Some(Token::Effect)
    } else if w == ":init"@ {
        Some(Token::Init)
    } else if w == ":goal"@ {
        Some(Token::Goal)
    } else if w == "and"@ {
        Some(Token::And)
    } else if w == "not"@ {
        Some(Token::Not)
    } else if w == "either"@ {
        Some(Token::Either)
    } else if w == "assign"@ {
        Some(Token::Assign)
    } else if w == "scale-up"@ {
        Some(Token::ScaleUp)
    } else if w == "scale-down"@ {
        Some(Token::ScaleDown)
    } else if w == "increase"@ {
        Some(Token::Increase)
    } else if w == "decrease"@ {
        Some(Token::Decrease)
    } else if w == "forall"@ {
        Some(Token::Forall)
    } else if w == "at"@ {
        Some(Token::At)
    } else if w == "over"@ {
        Some(Token::Over)
    } else if w == "all"@ {
        Some(Token::All)
    } else if w == "start"@ {
        Some(Token::Start)
    } else if w == "end"@ {
        Some(Token::End)
    } else {
        match requirement_named(w) {
            Some(r) => Some(Token::Requirement(r)),
            None => None,
        }
    }
}

/// The keyword token named by the lower-case word `w`, if any.
pub fn keyword_of(w: &String) -> (r: Option<Token>)
    ensures
        r == keyword(w@),
{
    if is_word(w, "define") {
        Some(Token::Define)
    } else if is_word(w, "problem") {
        Some(Token::Problem)
    } else if is_word(w, ":objects") {
        Some(Token::Objects)
    } else if is_word(w, "domain") {
        Some(Token::Domain)
    } else if is_word(w, ":domain") {
        Some(Token::ProblemDomain)
    } else if is_word(w, ":requirements") {
        Some(Token::Requirements)
    } else if is_word(w, ":types") {
        Some(Token::Types)
    } else if is_word(w, ":constants") {
        Some(Token::Constants)
    } else if is_word(w, ":predicates") {
        Some(Token::Predicates)
    } else if is_word(w, ":functions") {
        Some(Token::Functions)
    } else if is_word(w, ":action") {
        Some(Token::Action)
    } else if is_word(w, ":durative-action") {
        Some(Token::DurativeAction)
    } else if is_word(w, ":parameters") {
        Some(Token::Parameters)
    } else if is_word(w, ":duration") {
        Some(Token::Duration)
    } else if is_word(w, ":precondition") {
        Some(Token::Precondition)
    } else if is_word(w, ":condition") {
        Some(Token::Condition)
    } else if is_word(w, ":effect") {
        Some(Token::Effect)
    } else if is_word(w, ":init") {
        Some(Token::Init)
    } else if is_word(w, ":goal") {
        Some(Token::Goal)
    } else if is_word(w, "and") {
        Some(Token::And)
    } else if is_word(w, "not") {
        Some(Token::Not)
    } else if is_word(w, "either") {
        Some(Token::Either)
    } else if is_word(w, "assign") {
        Some(Token::Assign)
    } else if is_word(w, "scale-up") {
        Some(Token::ScaleUp)
    } else if is_word(w, "scale-down") {
        Some(Token::ScaleDown)
    } else if is_word(w, "increase") {
        Some(Token::Increase)
    } else if is_word(w, "decrease") {
        Some(Token::Decrease)
    } else if is_word(w, "forall") {
        Some(Token::Forall)
    } else if is_word(w, "at") {
        Some(Token::At)
    } else if is_word(w, "over") {
        Some(Token::Over)
    } else if is_word(w, "all") {
        Some(Token::All)
    } else if is_word(w, "start") {
        Some(Token::Start)
    } else if is_word(w, "end") {
        Some(Token::End)
    } else {
        match Requirement::from_keyword(w) {
            Some(r) => Some(Token::Requirement(r)),
            None => None,
        }
    }
}

} // verus!
