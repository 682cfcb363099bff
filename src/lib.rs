//! Constraint expressions for typed spreadsheet fields: a small predicate
//! language (`range(10,100)`, `len(2,4)`, `expect('Tab','Field')`, combined
//! with `not`, `and`, `or`), compiled into check sets and evaluated in a local
//! pass (one value) and a global pass (against every loaded table).

pub mod checker;
pub mod compiler;
pub mod laws;
pub mod number;
pub mod predicate;
pub mod text;
pub mod token;
pub mod xlsx;
