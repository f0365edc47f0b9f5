//! Compiles call-frame information into freestanding C source that performs
//! one stack-unwinding step per call.
//!
//! - [`ast`]: register-recovery rules, rows, and the sorted table of a binary.
//! - [`extract`]: from what the decoder of the call-frame information
//!   reports to rows of the table.
//! - [`gen`]: the generated source, a balanced tree of address tests whose
//!   leaves recover the caller's registers and report a status byte.
//! - [`model`]: what rules and generated expressions compute.
//! - [`listing`]: the table as text for people.
//! - [`text`]: numbers as text.

pub mod ast;
pub mod text;
pub mod gen;
pub mod model;
pub mod listing;
pub mod extract;
