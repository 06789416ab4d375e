use vstd::prelude::*;

use crate::keyword::Token;
use crate::lexer::Lexeme;
use crate::stream::{remaining, text_at, token_at, TokenStream};
use crate::tokens::{word, ParseResult};

verus! {

/// An argument written without a type: an identifier, or a variable with its `?`.
#[derive(Debug, PartialEq, Eq, Hash)]
pub struct Parameter(pub String);

impl View for Parameter {
    type V = Seq<char>;

    open spec fn view(&self) -> Seq<char> {
        self.0@
    }
}

pub open spec fn param_texts(v: Seq<Parameter>) -> Seq<Seq<char>> {
    v.map_values(|p: Parameter| p@)
}

/// Whether the token at `p` is an identifier or a variable.
pub open spec fn is_name_at(l: Seq<Lexeme>, p: int) -> bool {
    token_at(l, p) == Some(Token::Id) || token_at(l, p) == Some(Token::Var)
}

/// The longest run of identifiers and variables from `p`: where it ends, and the texts.
pub open spec fn params_spec(l: Seq<Lexeme>, p: int) -> (int, Seq<Seq<char>>)
    decreases remaining(l, p),
{
    if is_name_at(l, p) {
        let (q, rest) = params_spec(l, p + 1);
        (q, seq![text_at(l, p)] + rest)
    } else {
        (p, seq![])
    }
}

impl Parameter {
    /// A copy of the parameter.
    pub fn copy(&self) -> (r: Parameter)
        ensures
            r@ == self@,
    {
        Parameter(self.0.clone())
    }

    /// Reads as many identifiers and variables as follow one another.
    pub fn parse_parameters<'a>(ts: TokenStream<'a>) -> (r: ParseResult<'a, Vec<Parameter>>)
        ensures
            r matches Ok((n, v)) && n.lexemes == ts.lexemes && (n.pos as int, param_texts(v@))
                == params_spec(ts.toks(), ts.pos as int),
    {
        let mut cur = ts;
        let mut out: Vec<Parameter> = Vec::new();
        loop
            invariant
                cur.lexemes == ts.lexemes,
                ({
                    let (q, rest) = params_spec(ts.toks(), cur.pos as int);
                    params_spec(ts.toks(), ts.pos as int) == (q, param_texts(out@) + rest)
                }),
            decreases remaining(ts.toks(), cur.pos as int),
        {
            let step = match word(cur, Token::Id) {
                Ok(x) => Ok(x),
                Err(_) => word(cur, Token::Var),
            };
            match step {
                Ok((next, s)) => {
                    let ghost before = out@;
                    let item = Parameter(s);
                    out.push(item);
                    proof {
                        assert(param_texts(out@) =~= param_texts(before) + seq![item@]);
                        let (q, rest) = params_spec(ts.toks(), next.pos as int);
                        assert(param_texts(before) + (seq![item@] + rest) =~= param_texts(out@)
                            + rest);
                    }
                    cur = next;
                },
                Err(_) => {
                    assert(param_texts(out@) + seq![] =~= param_texts(out@));
                    return Ok((cur, out));
                },
            }
        }
    }

    /// The parameter as written.
    pub fn to_pddl(&self) -> (r: String)
        ensures
            r@ == self@,
    {
        self.0.clone()
    }
}

} // verus!
