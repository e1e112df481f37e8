//! The embedded logic language: values, expressions and statements, the
//! environment they are evaluated against, the interpreter, and the type
//! checker.

pub mod environment;
pub mod error;
pub mod evaluation;
pub mod expression;
pub mod interpreter;
pub mod lang_type;
pub mod node;
pub mod statement;
pub mod type_checker;
pub mod value;
