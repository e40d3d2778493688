//! An assembler for a small 32-bit register machine.
//!
//! A text is read token by token by the [`lexer`], the tokens are parsed into
//! statements by the [`parser`], and the statements are turned into machine
//! words by the generator in [`node`], which encodes each instruction with
//! [`cpu`].
//!
//! Each stage has a mathematical model, and the contracts of its functions
//! say that the function computes what the model says: [`scan`] gives the
//! tokens of a text, [`grammar`] the statements of a token stream, and
//! [`codegen`] the words of a list of statements. The laws that hold of the
//! models are proved beside them.

pub mod loc;
pub mod error;
pub mod token;
pub mod cpu;
pub mod node;
pub mod codegen;
pub mod scan;
pub mod lexer;
pub mod grammar;
pub mod parser;
