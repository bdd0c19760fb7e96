//! A tree-walking interpreter for a small dynamically typed scripting
//! language, with its proofs.
//!
//! Source text becomes tokens (`tokenizer`), tokens become statements
//! (`parser`, over the trees of `expr` and `stmt`), and statements are run by
//! a machine (`interpreter`) against a chain of scopes (`environment`).
//! `loader` goes from source text to statements in one call.
//!
//! The library holds no floating-point number and does no input or output.
//! A number is carried as the bit pattern and the decimal rendering of a
//! double (`number`), which the embedding program supplies: it attaches a
//! value to every number token before parsing, and it answers the machine's
//! requests for arithmetic. The machine hands out what is to be written, and
//! asks for the clock, in the same way.

pub mod environment;
pub mod expr;
pub mod interpreter;
pub mod loader;
pub mod number;
pub mod parser;
pub mod stmt;
pub mod text;
pub mod tokenizer;
