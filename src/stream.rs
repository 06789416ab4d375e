use vstd::prelude::*;

use crate::keyword::{LexError, Token};
use crate::lexer::{Lexeme, Span};

verus! {

/// A cursor over a sequence of lexemes. Copying it is cheap, and every move returns a
/// new cursor, so a parser that fails leaves its caller's cursor where it was.
#[derive(Clone, Copy, Debug)]
pub struct TokenStream<'a> {
    pub lexemes: &'a Vec<Lexeme>,
    pub pos: usize,
}

/// The token at position `p`, if there is one there and it is no error.
pub open spec fn token_at(l: Seq<Lexeme>, p: int) -> Option<Token> {
    if 0 <= p < l.len() {
        match l[p].token {
            Ok(t) => Some(t),
            Err(_) => None,
        }
    } else {
        None
    }
}

/// The text of the lexeme at position `p`.
pub open spec fn text_at(l: Seq<Lexeme>, p: int) -> Seq<char> {
    l[p].text@
}

/// How many lexemes are left from position `p`.
pub open spec fn remaining(l: Seq<Lexeme>, p: int) -> nat {
    if p < l.len() {
        (l.len() - p) as nat
    } else {
        0
    }
}

impl<'a> TokenStream<'a> {
    pub open spec fn toks(self) -> Seq<Lexeme> {
        self.lexemes@
    }

    /// A cursor at the first lexeme.
    pub fn new(lexemes: &'a Vec<Lexeme>) -> (r: Self)
        ensures
            r.lexemes == lexemes,
            r.pos == 0,
    {
        TokenStream { lexemes, pos: 0 }
    }

    /// The number of lexemes left.
    pub fn len(&self) -> (r: usize)
        ensures
            r == remaining(self.toks(), self.pos as int),
    {
        if self.pos < self.lexemes.len() {
            self.lexemes.len() - self.pos
        } else {
            0
        }
    }

    /// The number of lexemes left, tokens and errors alike.
    pub fn count(&self) -> (r: usize)
        ensures
            r == remaining(self.toks(), self.pos as int),
    {
        self.len()
    }

    /// Whether no lexeme is left.
    pub fn is_empty(&self) -> (r: bool)
        ensures
            r == (remaining(self.toks(), self.pos as int) == 0),
    {
        self.pos >= self.lexemes.len()
    }

    /// The next lexeme's token (or why it is none) and its text, without moving.
    pub fn peek(&self) -> (r: Option<(Result<Token, LexError>, &'a str)>)
        ensures
            self.pos < self.toks().len() ==> (r matches Some(x) && x.0 == self.toks()[self.pos as int].token
                && x.1@ == text_at(self.toks(), self.pos as int)),
            self.pos >= self.toks().len() ==> r is None,
    {
        if self.pos < self.lexemes.len() {
            let l: &'a Lexeme = &self.lexemes[self.pos];
            Some((l.token, l.text.as_str()))
        } else {
            None
        }
    }

    /// Up to `n` of the next lexemes, with their texts; `None` when none is left.
    pub fn peek_n(&self, n: usize) -> (r: Option<Vec<(Result<Token, LexError>, String)>>)
        ensures
            self.pos >= self.toks().len() ==> r is None,
            self.pos < self.toks().len() ==> (r matches Some(v) && v.len() == if n
                < self.toks().len() - self.pos {
                n as int
            } else {
                self.toks().len() - self.pos
            } && forall|k: int|
                0 <= k < v.len() ==> (#[trigger] v[k]).0 == self.toks()[self.pos + k].token
                    && v[k].1@ == text_at(self.toks(), self.pos + k)),
    {
        if self.pos >= self.lexemes.len() {
            return None;
        }
        let mut out: Vec<(Result<Token, LexError>, String)> = Vec::new();
        let mut k = self.pos;
        while k < self.lexemes.len() && k - self.pos < n
            invariant
                self.pos <= k <= self.lexemes.len(),
                k - self.pos <= n,
                out.len() == k - self.pos,
                forall|m: int|
                    0 <= m < out.len() ==> (#[trigger] out[m]).0 == self.toks()[self.pos + m].token
                        && out[m].1@ == text_at(self.toks(), self.pos + m),
            decreases self.lexemes.len() - k,
        {
            let l = &self.lexemes[k];
            out.push((l.token, l.text.clone()));
            k += 1;
        }
        Some(out)
    }

    /// The cursor one lexeme further on; at the end, the same cursor.
    pub fn advance(self) -> (r: Self)
        ensures
            r.lexemes == self.lexemes,
            r.pos == if self.pos < self.toks().len() {
                self.pos + 1
            } else {
                self.pos as int
            },
    {
        if self.pos < self.lexemes.len() {
            TokenStream { lexemes: self.lexemes, pos: self.pos + 1 }
        } else {
            self
        }
    }

    /// The span of the next lexeme; at the end, the empty span after the last one.
    pub fn span(&self) -> (r: Span)
        ensures
            self.pos < self.toks().len() ==> r == self.toks()[self.pos as int].span,
            self.pos >= self.toks().len() && self.toks().len() > 0 ==> r.start == r.end
                && r.end == self.toks().last().span.end,
            self.toks().len() == 0 ==> r == (Span { start: 0, end: 0 }),
    {
        if self.pos < self.lexemes.len() {
            self.lexemes[self.pos].span
        } else if self.lexemes.len() > 0 {
            let e = self.lexemes[self.lexemes.len() - 1].span.end;
            Span { start: e, end: e }
        } else {
            Span { start: 0, end: 0 }
        }
    }
}

} // verus!
