//! A small compile-time code generator for transactional SQL templates.
//!
//! A template holds a sequence of SQL statements separated by `;`.  From a
//! template and an ordered list of binding names the generator emits the text
//! of a code block that runs every statement inside one transaction, binds
//! positional `$n` markers to the binding names in order, and returns a tuple
//! with one value per statement that produces a row.

pub mod codegen;
pub mod invoke;
pub mod markers;
pub mod scan;
pub mod split;
