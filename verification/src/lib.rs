//! A compiler for the Blocks language: source text is tokenized, organized
//! into a tree, lowered to a linear intermediate representation and finally
//! emitted as machine words for a word-addressed register/memory machine.

pub mod text;
pub mod utils;
pub mod token;
pub mod error;
pub mod tree;
pub mod ir;
pub mod optimizer;
pub mod compile_utils;
pub mod compile;
pub mod layout;

pub use self::compile::compile;
