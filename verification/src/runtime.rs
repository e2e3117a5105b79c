//! Running a program: the scopes that hold its variables and the
//! interpreter that executes its statements.

pub mod environment;
pub mod interpreter;
pub mod semantics;
