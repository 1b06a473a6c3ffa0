//! A calculator for arithmetic expressions, worked out one operation at a
//! time, with every step proved against its contract.
pub mod text;
pub mod my_extension;
pub mod operation;
pub mod symbols;
pub mod expression;
pub mod line_editor;
pub mod text_expression;
pub mod precedence;
pub mod laws;
