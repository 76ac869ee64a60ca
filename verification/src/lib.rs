//! A small embeddable evaluator for a postfix, stack-based expression
//! language: numeric, boolean and character literals, nested arrays, named
//! variables, and a fixed catalog of built-in operations, executed against a
//! mutable operand stack with all-or-nothing semantics per call.

mod chars;
pub mod element;
pub mod fbits;
pub mod function;
pub mod numbers;
pub mod parser;
pub mod semantics;
mod builtins;
pub mod environment;
pub mod laws;

pub use element::Element;
pub use environment::{Environment, EvaluationError, FileSource};
pub use function::{Function, Op};
pub use parser::ParserError;
