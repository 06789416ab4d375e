//! Parsing and printing of planning-domain documents (domains, problems and plans),
//! verified with Verus.
//!
//! Text is split into lexemes (`lexer`), exactly as the left-to-right `lex_spec`
//! says, and read through a copyable cursor (`stream`)
//! by primitives (`tokens`) and by the grammar of each document (`domain`,
//! `problem`, `plan`). Every parser is proved to return what the grammar, stated as
//! spec functions beside it, reads at the cursor; every printer is proved to return
//! the text that a spec function gives. `laws` and `round_trip` prove that each
//! document reads back, as a value, from the tokens of its printed text.

pub mod domain;
pub mod error;
pub mod keyword;
pub mod laws;
pub mod lexer;
pub mod plan;
pub mod problem;
pub mod round_trip;
pub mod stream;
pub mod text;
pub mod tokens;
